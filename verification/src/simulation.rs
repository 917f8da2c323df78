//! The deterministic, renderer-independent game simulation: who is where,
//! who holds and who owns which item, combat, needs, quests and magic.
use vstd::prelude::*;
use std::collections::{BTreeMap, BTreeSet};
use vstd::std_specs::iter::IteratorSpec;

use crate::collections::{map_keys, set_members, sorted_map_keys, sorted_members, sorted_set_members, strictly_increasing};
use crate::content::{FormulaCondition, FormulaId, FormulaRule, MagicEffect, MaterialKind, WorldRules, first_formula_index};
use crate::geometry::{open_ground, Direction, GridPos, MapId, TerrainCell, TerrainKind, WorldMap, WorldPosition, abs_int, chebyshev_distance, direction_delta, taxicab_distance};
use crate::model::{
    ActionFailure, AmmunitionKind, CharacterProgression, CombatMethod, CommandOutcome, Combatant, Container, Entity,
    EntityId, EntityKind, GameCommand, LandmarkKind, GameplayBuildError, Inventory, Item, ItemId, ItemKind, Landmark,
    PlayerNeeds, Quest, QuestId, QuestObjective, QuestObjectiveKind, QuestStatus, SimulationBuildError,
    SimulationEvent, Transition, is_stackable, item_kind_is_stackable,
};

verus! {

broadcast use vstd::std_specs::btree::group_btree_axioms;

/// The key under which a transition leaving `p` is stored.
pub open spec fn position_key(p: WorldPosition) -> (u32, i32, i32, i16) {
    (p.map.0, p.grid.x, p.grid.y, p.grid.z)
}

pub fn position_key_exec(p: WorldPosition) -> (k: (u32, i32, i32, i16))
    ensures
        k == position_key(p),
{
    (p.map.0, p.grid.x, p.grid.y, p.grid.z)
}

/// Different positions have different keys.
pub proof fn lemma_position_key_injective(p: WorldPosition, q: WorldPosition)
    requires
        position_key(p) == position_key(q),
    ensures
        p == q,
{
}

/// The abstract state of a simulation.
#[verifier::ext_equal]
pub struct SimState {
    pub campaign_seed: u64,
    pub tick: u64,
    pub paused: bool,
    pub maps: Map<u32, WorldMap>,
    pub entities: Map<u64, Entity>,
    pub landmarks: Seq<Landmark>,
    pub items: Map<u64, Item>,
    pub legal_owners: Map<u64, EntityId>,
    pub stolen: Set<u64>,
    pub inventories: Map<u64, Inventory>,
    pub containers: Map<u64, Container>,
    pub combatants: Map<u64, Combatant>,
    pub transitions: Map<(u32, i32, i32, i16), Transition>,
    pub quests: Map<u64, Quest>,
    pub healers: Set<u64>,
    pub progression: CharacterProgression,
    pub rules: WorldRules,
    pub known_formulas: Set<u64>,
    pub read_items: Set<u64>,
    pub player_needs: PlayerNeeds,
    pub next_loose_item_entity: u64,
    pub next_split_item_id: u64,
    pub visited_maps: Set<u32>,
    pub player: EntityId,
}

/// Initial entity table: later entities with the same identity replace earlier ones.
pub open spec fn entity_table(entities: Seq<Entity>) -> Map<u64, Entity>
    decreases entities.len(),
{
    if entities.len() == 0 {
        Map::empty()
    } else {
        entity_table(entities.drop_last()).insert(entities.last().id.0, entities.last())
    }
}

/// A table built from `entities` holds at most that many entries.
proof fn lemma_table_size(entities: Seq<Entity>)
    ensures
        entity_table(entities).dom().finite(),
        entity_table(entities).dom().len() <= entities.len(),
    decreases entities.len(),
{
    if entities.len() > 0 {
        lemma_table_size(entities.drop_last());
        let before = entity_table(entities.drop_last());
        assert(entity_table(entities).dom() == before.dom().insert(entities.last().id.0));
    }
}

/// A finite set of identities with fewer members than there are numbers from
/// `low` up leaves one of those numbers free.
proof fn lemma_free_identity_beyond(taken: Set<u64>, low: u64)
    requires
        taken.finite(),
        taken.len() < 0x1_0000_0000_0000_0000 - low,
    ensures
        exists|c: u64| c >= low && !taken.contains(c),
{
    if forall|c: u64| c >= low ==> taken.contains(c) {
        let range = vstd::set_lib::set_int_range(low as int, 0x1_0000_0000_0000_0000);
        let as_id = |i: int| i as u64;
        let ids = range.map(as_id);
        vstd::set_lib::lemma_int_range(low as int, 0x1_0000_0000_0000_0000);
        assert(vstd::relations::injective_on(as_id, range)) by {
            assert forall|a: int, b: int| range.contains(a) && range.contains(b) && #[trigger] as_id(a) == #[trigger] as_id(b) implies a == b by {}
        }
        vstd::set_lib::lemma_map_size(range, ids, as_id);
        assert forall|c: u64| ids.contains(c) implies taken.contains(c) by {
            let i = choose|i: int| range.contains(i) && as_id(i) == c;
        }
        vstd::set_lib::lemma_len_subset(ids, taken);
    }
}

/// Whether `holder` physically carries `item`.
pub open spec fn carries(s: SimState, holder: u64, item: u64) -> bool {
    s.inventories.contains_key(holder) && s.inventories[holder].items@.contains(item)
}

/// The legal owner recorded for an item.
pub open spec fn owner_of(s: SimState, item: u64) -> Option<EntityId> {
    if s.legal_owners.contains_key(item) {
        Some(s.legal_owners[item])
    } else {
        None
    }
}

/// The state a freshly built simulation starts in.
pub open spec fn initial_state(
    campaign_seed: u64,
    rules: WorldRules,
    map: WorldMap,
    entities: Map<u64, Entity>,
    landmarks: Seq<Landmark>,
    player: EntityId,
) -> SimState {
    SimState {
        campaign_seed,
        tick: 0,
        paused: false,
        maps: Map::empty().insert(map.id.0, map),
        entities,
        landmarks,
        items: Map::empty(),
        legal_owners: Map::empty(),
        stolen: Set::empty(),
        inventories: Map::empty(),
        containers: Map::empty(),
        combatants: Map::empty(),
        transitions: Map::empty(),
        quests: Map::empty(),
        healers: Set::empty(),
        progression: CharacterProgression::initial_spec(),
        rules,
        known_formulas: Set::empty(),
        read_items: Set::empty(),
        player_needs: PlayerNeeds { hunger: 20, thirst: 15 },
        next_loose_item_entity: 0xd000_0000_0000_0000,
        next_split_item_id: 0xe000_0000_0000_0000,
        visited_maps: Set::empty().insert(map.id.0),
        player,
    }
}

/// The smallest identity among entities standing on another map, if any.
pub open spec fn first_misplaced_entity(entities: Map<u64, Entity>, map: MapId) -> Option<u64> {
    if exists|k: u64| entities.contains_key(k) && entities[k].position.map != map {
        Some(
            choose|k: u64|
                entities.contains_key(k) && entities[k].position.map != map && forall|j: u64|
                    entities.contains_key(j) && entities[j].position.map != map ==> k <= j,
        )
    } else {
        None
    }
}

/// What building a simulation from a map and its population yields.
pub open spec fn build_outcome(
    campaign_seed: u64,
    rules: WorldRules,
    map: WorldMap,
    entities: Seq<Entity>,
    landmarks: Seq<Landmark>,
    player: EntityId,
) -> Result<SimState, SimulationBuildError> {
    let table = entity_table(entities);
    if !table.contains_key(player.0) {
        Err(SimulationBuildError::MissingPlayer(player))
    } else if table[player.0].kind != EntityKind::Player {
        Err(SimulationBuildError::PlayerEntityRequired(player))
    } else if first_misplaced_entity(table, map.id) is Some {
        Err(
            SimulationBuildError::EntityOnDifferentMap(
                EntityId(first_misplaced_entity(table, map.id).unwrap()),
            ),
        )
    } else if exists|i: int| 0 <= i < landmarks.len() && landmarks[i].position.map != map.id {
        Err(SimulationBuildError::LandmarkOnDifferentMap)
    } else {
        Ok(initial_state(campaign_seed, rules, map, table, landmarks, player))
    }
}

#[derive(Clone, Debug, PartialEq, Eq)]
pub struct Simulation {
    campaign_seed: u64,
    tick: u64,
    paused: bool,
    maps: BTreeMap<u32, WorldMap>,
    entities: BTreeMap<u64, Entity>,
    landmarks: Vec<Landmark>,
    items: BTreeMap<u64, Item>,
    legal_owners: BTreeMap<u64, EntityId>,
    stolen_items: BTreeSet<u64>,
    inventories: BTreeMap<u64, Inventory>,
    containers: BTreeMap<u64, Container>,
    combatants: BTreeMap<u64, Combatant>,
    transitions: BTreeMap<(u32, i32, i32, i16), Transition>,
    quests: BTreeMap<u64, Quest>,
    healers: BTreeSet<u64>,
    progression: CharacterProgression,
    rules: WorldRules,
    known_formulas: BTreeSet<u64>,
    read_items: BTreeSet<u64>,
    player_needs: PlayerNeeds,
    next_loose_item_entity: u64,
    next_split_item_id: u64,
    visited_maps: BTreeSet<u32>,
    player: EntityId,
}

impl View for Simulation {
    type V = SimState;

    closed spec fn view(&self) -> SimState {
        SimState {
            campaign_seed: self.campaign_seed,
            tick: self.tick,
            paused: self.paused,
            maps: self.maps@,
            entities: self.entities@,
            landmarks: self.landmarks@,
            items: self.items@,
            legal_owners: self.legal_owners@,
            stolen: self.stolen_items@,
            inventories: self.inventories@,
            containers: self.containers@,
            combatants: self.combatants@,
            transitions: self.transitions@,
            quests: self.quests@,
            healers: self.healers@,
            progression: self.progression,
            rules: self.rules,
            known_formulas: self.known_formulas@,
            read_items: self.read_items@,
            player_needs: self.player_needs,
            next_loose_item_entity: self.next_loose_item_entity,
            next_split_item_id: self.next_split_item_id,
            visited_maps: self.visited_maps@,
            player: self.player,
        }
    }
}

/// The structural invariant every simulation keeps: the player exists, and
/// every table stores each record under its own identity.
pub open spec fn state_wf(s: SimState) -> bool {
    &&& s.entities.contains_key(s.player.0)
    &&& forall|k: u64| #[trigger] s.entities.contains_key(k) ==> s.entities[k].id.0 == k
    &&& forall|k: u64| #[trigger] s.items.contains_key(k) ==> s.items[k].id.0 == k
    &&& forall|k: u32| #[trigger] s.maps.contains_key(k) ==> s.maps[k].id.0 == k
    &&& forall|k: u64| #[trigger] s.containers.contains_key(k) ==> s.containers[k].entity.0 == k
    &&& forall|k: u64| #[trigger] s.combatants.contains_key(k) ==> s.combatants[k].entity.0 == k
    &&& forall|k: u64| #[trigger] s.inventories.contains_key(k) ==> s.inventories[k].owner.0 == k
    &&& forall|k: u64| #[trigger] s.quests.contains_key(k) ==> s.quests[k].id.0 == k
    &&& forall|k: u64| #[trigger] s.combatants.contains_key(k) ==> combatant_bounded(s.combatants[k])
    &&& forall|k: u64| #[trigger] s.legal_owners.contains_key(k) ==> s.items.contains_key(k)
    &&& forall|k: u64| #[trigger] s.stolen.contains(k) ==> s.items.contains_key(k)
    &&& forall|k: u64| #[trigger] s.containers.contains_key(k) ==> s.entities.contains_key(k)
}

/// Health stays between zero and its maximum, and armour is never negative.
pub open spec fn combatant_bounded(c: Combatant) -> bool {
    0 <= c.health <= c.max_health && c.armor >= 0
}

impl Simulation {
    pub open spec fn wf(&self) -> bool {
        state_wf(self@)
    }

    fn build_table(entities: Vec<Entity>) -> (table: BTreeMap<u64, Entity>)
        ensures
            table@ == entity_table(entities@),
    {
        let mut table = BTreeMap::new();
        let mut i: usize = 0;
        while i < entities.len()
            invariant
                i <= entities@.len(),
                table@ == entity_table(entities@.subrange(0, i as int)),
            decreases entities@.len() - i,
        {
            let e = entities[i];
            table.insert(e.id.0, e);
            proof {
                let next = entities@.subrange(0, i + 1);
                assert(next.drop_last() =~= entities@.subrange(0, i as int));
            }
            i = i + 1;
        }
        assert(entities@.subrange(0, entities@.len() as int) =~= entities@);
        table
    }

    proof fn lemma_table_ids(entities: Seq<Entity>)
        ensures
            forall|k: u64| #[trigger] entity_table(entities).contains_key(k) ==> entity_table(entities)[k].id.0 == k,
        decreases entities.len(),
    {
        if entities.len() > 0 {
            Self::lemma_table_ids(entities.drop_last());
        }
    }

    #[verifier::spinoff_prover]
    proof fn lemma_first_misplaced_found(table: Map<u64, Entity>, keys: Seq<u64>, i: int, map: MapId)
        requires
            keys.to_set() == table.dom(),
            strictly_increasing(keys),
            0 <= i < keys.len(),
            forall|j: int| 0 <= j < i ==> table[#[trigger] keys[j]].position.map == map,
            table[keys[i]].position.map != map,
        ensures
            first_misplaced_entity(table, map) == Some(keys[i]),
    {
        let k = keys[i];
        assert(keys.to_set().contains(k));
        assert(table.contains_key(k) && table[k].position.map != map);
        let c = choose|c: u64|
            table.contains_key(c) && table[c].position.map != map && forall|j: u64|
                table.contains_key(j) && table[j].position.map != map ==> c <= j;
        assert(keys.to_set().contains(c));
        let ci = choose|ci: int| 0 <= ci < keys.len() && keys[ci] == c;
        if ci < i {
            assert(table[keys[ci]].position.map == map);
        }
        if ci > i {
            assert(keys[i] < keys[ci]);
        }
        assert(c == k);
    }

    proof fn lemma_first_misplaced_none(table: Map<u64, Entity>, keys: Seq<u64>, map: MapId)
        requires
            keys.to_set() == table.dom(),
            forall|j: int| 0 <= j < keys.len() ==> table[#[trigger] keys[j]].position.map == map,
        ensures
            first_misplaced_entity(table, map).is_none(),
    {
        assert forall|k2: u64| table.contains_key(k2) implies table[k2].position.map == map by {
            assert(keys.to_set().contains(k2));
            let ci = choose|ci: int| 0 <= ci < keys.len() && keys[ci] == k2;
            assert(table[keys[ci]].position.map == map);
        }
    }

    fn first_misplaced(table: &BTreeMap<u64, Entity>, map: MapId) -> (found: Option<u64>)
        ensures
            found == first_misplaced_entity(table@, map),
    {
        let keys = map_keys(table);
        let mut i: usize = 0;
        while i < keys.len()
            invariant
                keys@.to_set() == table@.dom(),
                strictly_increasing(keys@),
                i <= keys@.len(),
                forall|j: int| 0 <= j < i ==> table@[#[trigger] keys@[j]].position.map == map,
            decreases keys@.len() - i,
        {
            let k = keys[i];
            assert(keys@.to_set().contains(k));
            let e = table.get(&k).unwrap();
            if e.position.map != map {
                proof {
                    Self::lemma_first_misplaced_found(table@, keys@, i as int, map);
                }
                return Some(k);
            }
            i = i + 1;
        }
        proof {
            Self::lemma_first_misplaced_none(table@, keys@, map);
        }
        None
    }

    /// Builds a simulation around one map, checking that the player exists and
    /// that every entity and landmark stands on that map.
    pub fn from_map_with_rules(
        campaign_seed: u64,
        rules: WorldRules,
        map: WorldMap,
        entities: Vec<Entity>,
        landmarks: Vec<Landmark>,
        player: EntityId,
    ) -> (built: Result<Self, SimulationBuildError>)
        ensures
                    match build_outcome(campaign_seed, rules, map, entities@, landmarks@, player) {
                        Ok(state) => built is Ok && built.unwrap()@ == state && built.unwrap().wf(),
                        Err(e) => built == Err::<Self, SimulationBuildError>(e),
                    },
                    built is Ok ==> split_id_available(built.unwrap()@),
                    built is Ok && entities@.len() < 0x3000_0000_0000_0000 ==> loose_entity_available(built.unwrap()@),
            {
                proof {
                    lemma_table_size(entities@);
                    if entities@.len() < 0x3000_0000_0000_0000 {
                        lemma_free_identity_beyond(entity_table(entities@).dom(), 0xd000_0000_0000_0000u64);
                    }
                }
                let map_id = map.id;
        let table = Self::build_table(entities);
        proof {
            Self::lemma_table_ids(entities@);
        }
        let player_kind = match table.get(&player.0) {
            None => {
                return Err(SimulationBuildError::MissingPlayer(player));
            },
            Some(e) => e.kind,
        };
        if player_kind != EntityKind::Player {
            return Err(SimulationBuildError::PlayerEntityRequired(player));
        }
        if let Some(k) = Self::first_misplaced(&table, map_id) {
            return Err(SimulationBuildError::EntityOnDifferentMap(EntityId(k)));
        }
        let mut i: usize = 0;
        while i < landmarks.len()
            invariant
                i <= landmarks@.len(),
                forall|j: int| 0 <= j < i ==> landmarks@[j].position.map == map_id,
                map_id == map.id,
                table@ == entity_table(entities@),
                table@.contains_key(player.0),
                table@[player.0].kind == EntityKind::Player,
                first_misplaced_entity(table@, map_id).is_none(),
            decreases landmarks@.len() - i,
        {
            if landmarks[i].position.map != map_id {
                assert(landmarks@[i as int].position.map != map_id);
                return Err(SimulationBuildError::LandmarkOnDifferentMap);
            }
            i = i + 1;
        }
        let mut maps = BTreeMap::new();
        maps.insert(map_id.0, map);
        let mut visited_maps = BTreeSet::new();
        visited_maps.insert(map_id.0);
        let sim = Simulation {
            campaign_seed,
            tick: 0,
            paused: false,
            maps,
            entities: table,
            landmarks,
            items: BTreeMap::new(),
            legal_owners: BTreeMap::new(),
            stolen_items: BTreeSet::new(),
            inventories: BTreeMap::new(),
            containers: BTreeMap::new(),
            combatants: BTreeMap::new(),
            transitions: BTreeMap::new(),
            quests: BTreeMap::new(),
            healers: BTreeSet::new(),
            progression: CharacterProgression::initial(),
            rules,
            known_formulas: BTreeSet::new(),
            read_items: BTreeSet::new(),
            player_needs: PlayerNeeds { hunger: 20, thirst: 15 },
            next_loose_item_entity: 0xd000_0000_0000_0000,
            next_split_item_id: 0xe000_0000_0000_0000,
            visited_maps,
            player,
        };
        assert(sim@ =~= initial_state(campaign_seed, rules, map, entity_table(entities@), landmarks@, player));
        assert(!sim@.items.contains_key(sim@.next_split_item_id));
        Ok(sim)
    }

    /// Builds a simulation whose magical rules are generated from the campaign seed.
    pub fn from_map(
        campaign_seed: u64,
        map: WorldMap,
        entities: Vec<Entity>,
        landmarks: Vec<Landmark>,
        player: EntityId,
    ) -> (built: Result<Self, SimulationBuildError>)
        ensures
            exists|rules: WorldRules|
                crate::content::is_generated_rules(rules, campaign_seed) && match build_outcome(
                    campaign_seed,
                    rules,
                    map,
                    entities@,
                    landmarks@,
                    player,
                ) {
                                    Ok(state) => built is Ok && built.unwrap()@ == state && built.unwrap().wf(),
                                    Err(e) => built == Err::<Self, SimulationBuildError>(e),
                                },
                            built is Ok ==> split_id_available(built.unwrap()@),
                            built is Ok && entities@.len() < 0x3000_0000_0000_0000 ==> loose_entity_available(built.unwrap()@),
                    {
                        let rules = WorldRules::generate(campaign_seed);
        Self::from_map_with_rules(campaign_seed, rules, map, entities, landmarks, player)
    }

    pub fn campaign_seed(&self) -> (seed: u64)
        ensures
            seed == self@.campaign_seed,
    {
        self.campaign_seed
    }

    /// Turns elapsed in the world.
    pub fn tick(&self) -> (tick: u64)
        ensures
            tick == self@.tick,
    {
        self.tick
    }

    pub fn paused(&self) -> (paused: bool)
        ensures
            paused == self@.paused,
    {
        self.paused
    }

    pub fn map(&self, id: MapId) -> (map: Option<&WorldMap>)
        ensures
            match map {
                Some(m) => self@.maps.contains_key(id.0) && *m == self@.maps[id.0],
                None => !self@.maps.contains_key(id.0),
            },
    {
        self.maps.get(&id.0)
    }

    pub fn player(&self) -> (player: &Entity)
        requires
            self.wf(),
        ensures
            *player == self@.entities[self@.player.0],
    {
        self.entities.get(&self.player.0).unwrap()
    }

    pub fn player_id(&self) -> (id: EntityId)
        ensures
            id == self@.player,
    {
        self.player
    }

    pub fn entity(&self, id: EntityId) -> (entity: Option<&Entity>)
        ensures
            match entity {
                Some(e) => self@.entities.contains_key(id.0) && *e == self@.entities[id.0],
                None => !self@.entities.contains_key(id.0),
            },
    {
        self.entities.get(&id.0)
    }

    pub fn item(&self, id: ItemId) -> (item: Option<&Item>)
        ensures
            match item {
                Some(i) => self@.items.contains_key(id.0) && *i == self@.items[id.0],
                None => !self@.items.contains_key(id.0),
            },
    {
        self.items.get(&id.0)
    }

    pub fn legal_owner(&self, item: ItemId) -> (owner: Option<EntityId>)
        ensures
            owner == owner_of(self@, item.0),
    {
        match self.legal_owners.get(&item.0) {
            Some(o) => Some(*o),
            None => None,
        }
    }

    pub fn is_stolen(&self, item: ItemId) -> (stolen: bool)
        ensures
            stolen == self@.stolen.contains(item.0),
    {
        self.stolen_items.contains(&item.0)
    }

    pub fn inventory(&self, owner: EntityId) -> (inventory: Option<&Inventory>)
        ensures
            match inventory {
                Some(i) => self@.inventories.contains_key(owner.0) && *i == self@.inventories[owner.0],
                None => !self@.inventories.contains_key(owner.0),
            },
    {
        self.inventories.get(&owner.0)
    }

    pub fn player_inventory(&self) -> (inventory: Option<&Inventory>)
        ensures
            match inventory {
                Some(i) => self@.inventories.contains_key(self@.player.0) && *i
                    == self@.inventories[self@.player.0],
                None => !self@.inventories.contains_key(self@.player.0),
            },
    {
        self.inventory(self.player)
    }

    pub fn container(&self, entity: EntityId) -> (container: Option<&Container>)
        ensures
            match container {
                Some(c) => self@.containers.contains_key(entity.0) && *c == self@.containers[entity.0],
                None => !self@.containers.contains_key(entity.0),
            },
    {
        self.containers.get(&entity.0)
    }

    pub fn combatant(&self, entity: EntityId) -> (combatant: Option<&Combatant>)
        ensures
            match combatant {
                Some(c) => self@.combatants.contains_key(entity.0) && *c == self@.combatants[entity.0],
                None => !self@.combatants.contains_key(entity.0),
            },
    {
        self.combatants.get(&entity.0)
    }

    pub fn player_combatant(&self) -> (combatant: Option<&Combatant>)
        ensures
            match combatant {
                Some(c) => self@.combatants.contains_key(self@.player.0) && *c
                    == self@.combatants[self@.player.0],
                None => !self@.combatants.contains_key(self@.player.0),
            },
    {
        self.combatant(self.player)
    }

    pub fn progression(&self) -> (progression: CharacterProgression)
        ensures
            progression == self@.progression,
    {
        self.progression
    }

    pub fn player_needs(&self) -> (needs: PlayerNeeds)
        ensures
            needs == self@.player_needs,
    {
        self.player_needs
    }

    pub fn rules(&self) -> (rules: &WorldRules)
        ensures
            *rules == self@.rules,
    {
        &self.rules
    }

    /// Identities of the formulas the player has reconstructed.
    pub fn known_formulas(&self) -> (known: &BTreeSet<u64>)
        ensures
            known@ == self@.known_formulas,
    {
        &self.known_formulas
    }

    pub fn quest(&self, id: QuestId) -> (quest: Option<&Quest>)
        ensures
            match quest {
                Some(q) => self@.quests.contains_key(id.0) && *q == self@.quests[id.0],
                None => !self@.quests.contains_key(id.0),
            },
    {
        self.quests.get(&id.0)
    }

    pub fn transition_at(&self, position: WorldPosition) -> (transition: Option<&Transition>)
        ensures
            match transition {
                Some(t) => self@.transitions.contains_key(position_key(position)) && *t
                    == self@.transitions[position_key(position)],
                None => !self@.transitions.contains_key(position_key(position)),
            },
    {
        self.transitions.get(&position_key_exec(position))
    }

    pub fn landmarks(&self) -> (landmarks: &Vec<Landmark>)
        ensures
            landmarks@ == self@.landmarks,
    {
        &self.landmarks
    }

    pub fn record_social_practice(&mut self)
        requires
            old(self).wf(),
        ensures
            final(self).wf(),
            final(self)@ == (SimState {
                progression: CharacterProgression {
                    social_practice: old(self)@.progression.social_practice.saturating_add(1),
                    ..old(self)@.progression
                },
                ..old(self)@
            }),
    {
        self.progression.social_practice = self.progression.social_practice.saturating_add(1);
    }

    pub fn record_world_change(&mut self)
        requires
            old(self).wf(),
        ensures
            final(self).wf(),
            final(self)@ == (SimState {
                progression: CharacterProgression {
                    world_changes: old(self)@.progression.world_changes.saturating_add(1),
                    ..old(self)@.progression
                },
                ..old(self)@
            }),
    {
        self.progression.world_changes = self.progression.world_changes.saturating_add(1);
    }

    /// Transfers legal title independently from physical custody.
    ///
    /// The current legal owner must authorize the transfer. This keeps gifts and
    /// purchases distinct from theft: merely carrying an object never proves
    /// ownership. A lawful transfer also clears any theft record.
    pub fn transfer_legal_ownership(&mut self, item: ItemId, from: EntityId, to: EntityId) -> (done: bool)
        requires
            old(self).wf(),
        ensures
            final(self).wf(),
            done == (old(self)@.items.contains_key(item.0) && old(self)@.entities.contains_key(from.0)
                && old(self)@.entities.contains_key(to.0) && owner_of(old(self)@, item.0) == Some(from)),
            done ==> final(self)@ == (SimState {
                legal_owners: old(self)@.legal_owners.insert(item.0, to),
                stolen: old(self)@.stolen.remove(item.0),
                ..old(self)@
            }),
            !done ==> final(self)@ == old(self)@,
    {
        if !self.items.contains_key(&item.0) || !self.entities.contains_key(&from.0)
            || !self.entities.contains_key(&to.0) || self.legal_owner(item) != Some(from) {
            return false;
        }
        self.legal_owners.insert(item.0, to);
        self.stolen_items.remove(&item.0);
        true
    }
}


/// A position an entity could stand on: its map exists and the cell there is
/// known and does not block movement.
pub open spec fn cell_open(s: SimState, p: WorldPosition) -> bool {
    &&& s.maps.contains_key(p.map.0)
    &&& s.maps[p.map.0].cell_at(p.grid) is Some
    &&& !s.maps[p.map.0].cell_at(p.grid).unwrap().movement_blocked
}

/// The direction an entity faces after stepping by (dx, dy).
pub open spec fn facing_toward(dx: int, dy: int) -> crate::geometry::Direction {
    if crate::geometry::abs_int(dx) >= crate::geometry::abs_int(dy) {
        if dx >= 0 {
            crate::geometry::Direction::East
        } else {
            crate::geometry::Direction::West
        }
    } else if dy >= 0 {
        crate::geometry::Direction::South
    } else {
        crate::geometry::Direction::North
    }
}

/// Some entity on `(map, grid)` is not a defeated combatant.
pub open spec fn occupied_by_living(s: SimState, map: MapId, grid: GridPos) -> bool {
    exists|k: u64|
        #![trigger s.entities[k]]
        s.entities.contains_key(k) && s.entities[k].position.map == map && s.entities[k].position.grid
            == grid && (!s.combatants.contains_key(k) || s.combatants[k].health > 0)
}

/// Total weight of the listed items that exist.
pub open spec fn weight_total(items: Map<u64, Item>, ids: Seq<u64>) -> int
    decreases ids.len(),
{
    if ids.len() == 0 {
        0
    } else {
        weight_total(items, ids.drop_last()) + if items.contains_key(ids.last()) {
            items[ids.last()].weight_grams as int
        } else {
            0
        }
    }
}

/// What a holder's carried items weigh, capped at `u32::MAX`.
pub open spec fn carried_weight(s: SimState, holder: u64) -> u32 {
    let total = if s.inventories.contains_key(holder) {
        weight_total(s.items, sorted_members(s.inventories[holder].items@))
    } else {
        0
    };
    if total > u32::MAX {
        u32::MAX
    } else {
        total as u32
    }
}

/// A container can take `extra` more grams.
pub open spec fn container_accepts(s: SimState, holder: u64, extra: u32) -> bool {
    s.containers.contains_key(holder) ==> carried_weight(s, holder).saturating_add(extra)
        <= s.containers[holder].capacity_grams
}

/// Items a holder carries (nothing when it has no inventory).
pub open spec fn held_items(invs: Map<u64, Inventory>, holder: u64) -> Set<u64> {
    if invs.contains_key(holder) {
        invs[holder].items@
    } else {
        Set::empty()
    }
}

/// `after` is `before` with `item` added to `holder`'s inventory, which is
/// created empty and unequipped when the holder had none.
pub open spec fn inventory_gained(
    before: Map<u64, Inventory>,
    after: Map<u64, Inventory>,
    holder: u64,
    item: u64,
) -> bool {
    &&& after.dom() == before.dom().insert(holder)
    &&& after[holder].items@ == held_items(before, holder).insert(item)
    &&& before.contains_key(holder) ==> {
        &&& after[holder].owner == before[holder].owner
        &&& after[holder].equipped_melee == before[holder].equipped_melee
        &&& after[holder].equipped_ranged == before[holder].equipped_ranged
    }
    &&& !before.contains_key(holder) ==> {
        &&& after[holder].owner == EntityId(holder)
        &&& after[holder].equipped_melee.is_none()
        &&& after[holder].equipped_ranged.is_none()
    }
    &&& forall|k: u64| k != holder && #[trigger] before.contains_key(k) ==> after[k] == before[k]
}

/// `after` is `before` with `item` taken out of `holder`'s inventory and
/// unequipped there.
pub open spec fn inventory_lost(
    before: Map<u64, Inventory>,
    after: Map<u64, Inventory>,
    holder: u64,
    item: u64,
) -> bool {
    &&& before.contains_key(holder)
    &&& after.dom() == before.dom()
    &&& after[holder].items@ == before[holder].items@.remove(item)
    &&& after[holder].owner == before[holder].owner
    &&& after[holder].equipped_melee == if before[holder].equipped_melee == Some(ItemId(item)) {
        None
    } else {
        before[holder].equipped_melee
    }
    &&& after[holder].equipped_ranged == if before[holder].equipped_ranged == Some(ItemId(item)) {
        None
    } else {
        before[holder].equipped_ranged
    }
    &&& forall|k: u64| k != holder && #[trigger] before.contains_key(k) ==> after[k] == before[k]
}

/// Weight of the part of a stack being moved: all of it for the whole stack,
/// otherwise the proportional share rounded up.
pub open spec fn stack_share(item: Item, quantity: u16) -> u32 {
    if quantity >= item.quantity {
        item.weight_grams
    } else {
        let denominator = if item.quantity >= 1 {
            item.quantity as int
        } else {
            1
        };
        let share = (item.weight_grams as int * quantity as int + denominator - 1) / denominator;
        if share > u32::MAX {
            u32::MAX
        } else {
            share as u32
        }
    }
}

/// The weight share of part of a stack never exceeds the stack's weight.
pub proof fn lemma_share_fits(item: Item, quantity: u16)
    ensures
        stack_share(item, quantity) <= item.weight_grams,
{
    if quantity < item.quantity {
        let d = if item.quantity >= 1 {
            item.quantity as int
        } else {
            1
        };
        let wi = item.weight_grams as int;
        let n = wi * quantity as int;
        assert(n <= wi * d) by (nonlinear_arith)
            requires
                quantity < d,
                wi >= 0,
                n == wi * (quantity as int),
        ;
        assert(n >= 0) by (nonlinear_arith)
            requires
                wi >= 0,
                quantity >= 0,
                n == wi * (quantity as int),
        ;
        assert((n + d - 1) / d <= wi) by (nonlinear_arith)
            requires
                n <= wi * d,
                d >= 1,
                n >= 0,
        ;
    }
}

pub fn stack_weight_for_quantity(item: &Item, quantity: u16) -> (weight: u32)
    ensures
        weight == stack_share(*item, quantity),
        weight <= item.weight_grams,
{
    if quantity >= item.quantity {
        item.weight_grams
    } else {
        let w = item.weight_grams as u64;
        let q = quantity as u64;
        proof {
            assert(w * q <= 0xffff_ffffu64 * 0xffffu64) by (nonlinear_arith)
                requires
                    w <= 0xffff_ffffu64,
                    q <= 0xffffu64,
            ;
        }
        let numerator = w * q;
        let denominator: u64 = if item.quantity >= 1 {
            item.quantity as u64
        } else {
            1
        };
        let share = (numerator + denominator - 1) / denominator;
        proof {
            let wi = w as int;
            let n = numerator as int;
            let d = denominator as int;
            assert(n <= wi * d) by (nonlinear_arith)
                requires
                    n == wi * (q as int),
                    q < d,
                    wi >= 0,
            ;
            assert((n + d - 1) / d <= wi) by (nonlinear_arith)
                requires
                    n <= wi * d,
                    d >= 1,
                    n >= 0,
            ;
        }
        share as u32
    }
}


/// Every field but the inventories is unchanged.
pub open spec fn same_but_inventories(a: SimState, b: SimState) -> bool {
    b == (SimState { inventories: b.inventories, ..a })
}

/// What checking a new quest against the simulation reports, objective by objective.
pub open spec fn quest_objective_problem(s: SimState, objectives: Seq<QuestObjective>, count: int) -> Option<GameplayBuildError>
    decreases count,
{
    if count <= 0 {
        None
    } else {
        match quest_objective_problem(s, objectives, count - 1) {
            Some(e) => Some(e),
            None => match objectives[count - 1].kind {
                QuestObjectiveKind::Defeat(e) => if !s.entities.contains_key(e.0) {
                    Some(GameplayBuildError::MissingEntity(e))
                } else {
                    None
                },
                QuestObjectiveKind::Recover(i) => if !s.items.contains_key(i.0) {
                    Some(GameplayBuildError::MissingItem(i))
                } else {
                    None
                },
            },
        }
    }
}

/// Once a problem is found, later objectives do not change the report.
pub proof fn lemma_problem_stable(s: SimState, objectives: Seq<QuestObjective>, c: int, d: int)
    requires
        0 <= c <= d,
        quest_objective_problem(s, objectives, c) is Some,
    ensures
        quest_objective_problem(s, objectives, d) == quest_objective_problem(s, objectives, c),
    decreases d - c,
{
    if d > c {
        lemma_problem_stable(s, objectives, c, d - 1);
    }
}

/// A combatant record that can enter play.
pub open spec fn combatant_valid(c: Combatant) -> bool {
    c.max_health > 0 && c.health > 0 && c.health <= c.max_health && c.armor >= 0
}

/// A container record that can be attached to `s`.
pub open spec fn container_valid(s: SimState, c: Container) -> bool {
    &&& s.entities[c.entity.0].kind == EntityKind::Item
    &&& c.capacity_grams != 0
    &&& !(c.locked && c.lock_code.is_none())
    &&& s.entities.contains_key(c.owner.0)
    &&& !s.containers.contains_key(c.entity.0)
}

impl Simulation {
    fn inventory_add(&mut self, holder: u64, item: u64)
        requires
            old(self).wf(),
        ensures
            final(self).wf(),
            inventory_gained(old(self)@.inventories, final(self)@.inventories, holder, item),
            same_but_inventories(old(self)@, final(self)@),
    {
        match self.inventories.remove(&holder) {
            Some(mut inventory) => {
                inventory.items.insert(item);
                self.inventories.insert(holder, inventory);
            },
            None => {
                let mut inventory = Inventory::new(EntityId(holder));
                inventory.items.insert(item);
                self.inventories.insert(holder, inventory);
            },
        }
        assert(self@.inventories.dom() =~= old(self)@.inventories.dom().insert(holder));
        assert(self@ =~= (SimState { inventories: self@.inventories, ..old(self)@ }));
    }

    /// Takes `item` out of `holder`'s inventory; false when it was not there.
    fn inventory_take(&mut self, holder: u64, item: u64) -> (taken: bool)
        requires
            old(self).wf(),
        ensures
            final(self).wf(),
            taken == carries(old(self)@, holder, item),
            taken ==> inventory_lost(old(self)@.inventories, final(self)@.inventories, holder, item),
            !taken ==> final(self)@ == old(self)@,
            same_but_inventories(old(self)@, final(self)@),
    {
        let present = match self.inventories.get(&holder) {
            None => false,
            Some(inventory) => inventory.items.contains(&item),
        };
        if !present {
            return false;
        }
        match self.inventories.remove(&holder) {
            None => false,
            Some(mut inventory) => {
                inventory.items.remove(&item);
                if inventory.equipped_melee == Some(ItemId(item)) {
                    inventory.equipped_melee = None;
                }
                if inventory.equipped_ranged == Some(ItemId(item)) {
                    inventory.equipped_ranged = None;
                }
                self.inventories.insert(holder, inventory);
                assert(self@.inventories.dom() =~= old(self)@.inventories.dom());
                assert(self@ =~= (SimState { inventories: self@.inventories, ..old(self)@ }));
                true
            },
        }
    }

    fn carried_weight_exec(&self, holder: u64) -> (weight: u32)
        ensures
            weight == carried_weight(self@, holder),
    {
        match self.inventories.get(&holder) {
            None => 0,
            Some(inventory) => {
                let members = sorted_set_members(&inventory.items);
                let mut total: u32 = 0;
                let mut i: usize = 0;
                while i < members.len()
                    invariant
                        i <= members@.len(),
                        total == if weight_total(self@.items, members@.subrange(0, i as int)) > u32::MAX {
                            u32::MAX as int
                        } else {
                            weight_total(self@.items, members@.subrange(0, i as int))
                        },
                        weight_total(self@.items, members@.subrange(0, i as int)) >= 0,
                    decreases members@.len() - i,
                {
                    proof {
                        assert(members@.subrange(0, i + 1).drop_last() =~= members@.subrange(0, i as int));
                    }
                    match self.items.get(&members[i]) {
                        Some(it) => {
                            total = total.saturating_add(it.weight_grams);
                        },
                        None => {},
                    }
                    i = i + 1;
                }
                assert(members@.subrange(0, members@.len() as int) =~= members@);
                total
            },
        }
    }

    /// Weight a container currently holds; `None` when `entity` is not a container.
    pub fn container_weight(&self, entity: EntityId) -> (weight: Option<u32>)
        ensures
            weight == if self@.containers.contains_key(entity.0) {
                Some(carried_weight(self@, entity.0))
            } else {
                None
            },
    {
        if !self.containers.contains_key(&entity.0) {
            return None;
        }
        Some(self.carried_weight_exec(entity.0))
    }

    fn accepts_weight(&self, holder: u64, extra: u32) -> (accepts: bool)
        ensures
            accepts == container_accepts(self@, holder, extra),
    {
        match self.containers.get(&holder) {
            None => true,
            Some(container) => self.carried_weight_exec(holder).saturating_add(extra)
                <= container.capacity_grams,
        }
    }

    fn cell_open_exec(&self, position: WorldPosition) -> (open: bool)
        ensures
            open == cell_open(self@, position),
    {
        match self.maps.get(&position.map.0) {
            None => false,
            Some(map) => match map.cell(position.grid) {
                None => false,
                Some(cell) => !cell.movement_blocked,
            },
        }
    }

    /// Attaches another map and its landmarks.
    pub fn add_map(&mut self, map: WorldMap, landmarks: Vec<Landmark>) -> (result: Result<(), GameplayBuildError>)
        requires
            old(self).wf(),
        ensures
            final(self).wf(),
            old(self)@.maps.contains_key(map.id.0) ==> result == Err::<(), GameplayBuildError>(
                GameplayBuildError::DuplicateMap(map.id),
            ) && final(self)@ == old(self)@,
            !old(self)@.maps.contains_key(map.id.0) && (exists|i: int|
                0 <= i < landmarks@.len() && landmarks@[i].position.map != map.id) ==> result
                == Err::<(), GameplayBuildError>(GameplayBuildError::LandmarkOnMissingMap) && final(self)@
                == old(self)@,
            !old(self)@.maps.contains_key(map.id.0) && (forall|i: int|
                0 <= i < landmarks@.len() ==> landmarks@[i].position.map == map.id) ==> result is Ok
                && final(self)@ == (SimState {
                maps: old(self)@.maps.insert(map.id.0, map),
                landmarks: old(self)@.landmarks + landmarks@,
                ..old(self)@
            }),
    {
        if self.maps.contains_key(&map.id.0) {
            return Err(GameplayBuildError::DuplicateMap(map.id));
        }
        let map_id = map.id;
        let mut i: usize = 0;
        while i < landmarks.len()
            invariant
                i <= landmarks@.len(),
                forall|j: int| 0 <= j < i ==> landmarks@[j].position.map == map_id,
                self@ == old(self)@,
                self.wf(),
                map_id == map.id,
                !old(self)@.maps.contains_key(map.id.0),
            decreases landmarks@.len() - i,
        {
            if landmarks[i].position.map != map_id {
                assert(landmarks@[i as int].position.map != map_id);
                return Err(GameplayBuildError::LandmarkOnMissingMap);
            }
            i = i + 1;
        }
        self.maps.insert(map_id.0, map);
        let mut extra = landmarks;
        self.landmarks.append(&mut extra);
        assert(self@ =~= (SimState {
            maps: old(self)@.maps.insert(map.id.0, map),
            landmarks: old(self)@.landmarks + landmarks@,
            ..old(self)@
        }));
        Ok(())
    }

    /// Places a new entity on an open cell of an existing map.
    pub fn add_entity(&mut self, entity: Entity) -> (result: Result<(), GameplayBuildError>)
        requires
            old(self).wf(),
        ensures
            final(self).wf(),
            result == if old(self)@.entities.contains_key(entity.id.0) {
                Err::<(), GameplayBuildError>(GameplayBuildError::DuplicateEntity(entity.id))
            } else if !old(self)@.maps.contains_key(entity.position.map.0) {
                Err(GameplayBuildError::EntityOnMissingMap(entity.id))
            } else if !cell_open(old(self)@, entity.position) {
                Err(GameplayBuildError::EntityOnBlockedCell(entity.id))
            } else {
                Ok(())
            },
            result is Ok ==> final(self)@ == (SimState {
                entities: old(self)@.entities.insert(entity.id.0, entity),
                ..old(self)@
            }),
            result is Err ==> final(self)@ == old(self)@,
    {
        if self.entities.contains_key(&entity.id.0) {
            return Err(GameplayBuildError::DuplicateEntity(entity.id));
        }
        if !self.maps.contains_key(&entity.position.map.0) {
            return Err(GameplayBuildError::EntityOnMissingMap(entity.id));
        }
        if !self.cell_open_exec(entity.position) {
            return Err(GameplayBuildError::EntityOnBlockedCell(entity.id));
        }
        self.entities.insert(entity.id.0, entity);
        assert(self@ =~= (SimState { entities: old(self)@.entities.insert(entity.id.0, entity), ..old(self)@ }));
        Ok(())
    }

    /// Moves an entity onto an open cell, turning it toward the step it took.
    pub fn move_entity(&mut self, entity: EntityId, position: WorldPosition) -> (moved: bool)
        requires
            old(self).wf(),
            old(self)@.entities.contains_key(entity.0) ==> crate::geometry::distance_fits(
                old(self)@.entities[entity.0].position.grid,
                position.grid,
            ),
        ensures
            final(self).wf(),
            moved == (cell_open(old(self)@, position) && old(self)@.entities.contains_key(entity.0)),
            moved ==> final(self)@ == (SimState {
                entities: old(self)@.entities.insert(
                    entity.0,
                    Entity {
                        position,
                        facing: facing_toward(
                            position.grid.x - old(self)@.entities[entity.0].position.grid.x,
                            position.grid.y - old(self)@.entities[entity.0].position.grid.y,
                        ),
                        ..old(self)@.entities[entity.0]
                    },
                ),
                ..old(self)@
            }),
            !moved ==> final(self)@ == old(self)@,
    {
        if !self.cell_open_exec(position) {
            return false;
        }
        let mut record = match self.entities.get(&entity.0) {
            None => {
                return false;
            },
            Some(e) => *e,
        };
        let dx = position.grid.x as i64 - record.position.grid.x as i64;
        let dy = position.grid.y as i64 - record.position.grid.y as i64;
        let ax = if dx < 0 { -dx } else { dx };
        let ay = if dy < 0 { -dy } else { dy };
        record.facing = if ax >= ay {
            if dx >= 0 {
                crate::geometry::Direction::East
            } else {
                crate::geometry::Direction::West
            }
        } else if dy >= 0 {
            crate::geometry::Direction::South
        } else {
            crate::geometry::Direction::North
        };
        record.position = position;
        self.entities.insert(entity.0, record);
        assert(self@ =~= (SimState { entities: self@.entities, ..old(self)@ }));
        true
    }

    /// Removes an entity other than the player, with its healer, combat,
    /// container and inventory records.
    pub fn remove_entity(&mut self, entity: EntityId) -> (removed: bool)
        requires
            old(self).wf(),
        ensures
            final(self).wf(),
            removed == (entity != old(self)@.player && old(self)@.entities.contains_key(entity.0)),
            removed ==> final(self)@ == (SimState {
                entities: old(self)@.entities.remove(entity.0),
                healers: old(self)@.healers.remove(entity.0),
                combatants: old(self)@.combatants.remove(entity.0),
                containers: old(self)@.containers.remove(entity.0),
                inventories: old(self)@.inventories.remove(entity.0),
                ..old(self)@
            }),
            !removed ==> final(self)@ == old(self)@,
    {
        if entity == self.player || !self.entities.contains_key(&entity.0) {
            return false;
        }
        self.entities.remove(&entity.0);
        self.healers.remove(&entity.0);
        self.combatants.remove(&entity.0);
        self.containers.remove(&entity.0);
        self.inventories.remove(&entity.0);
        assert(self@ =~= (SimState {
            entities: old(self)@.entities.remove(entity.0),
            healers: old(self)@.healers.remove(entity.0),
            combatants: old(self)@.combatants.remove(entity.0),
            containers: old(self)@.containers.remove(entity.0),
            inventories: old(self)@.inventories.remove(entity.0),
            ..old(self)@
        }));
        true
    }

    fn living_occupant(&self, map: MapId, position: GridPos) -> (occupied: bool)
        requires
            self.wf(),
        ensures
            occupied == occupied_by_living(self@, map, position),
    {
        let keys = map_keys(&self.entities);
        let mut i: usize = 0;
        while i < keys.len()
            invariant
                keys@.to_set() == self@.entities.dom(),
                i <= keys@.len(),
                forall|j: int|
                    0 <= j < i ==> {
                        let k = #[trigger] keys@[j];
                        !(self@.entities[k].position.map == map && self@.entities[k].position.grid
                            == position && (!self@.combatants.contains_key(k)
                            || self@.combatants[k].health > 0))
                    },
            decreases keys@.len() - i,
        {
            let k = keys[i];
            assert(keys@.to_set().contains(k));
            let e = self.entities.get(&k).unwrap();
            if e.position.map == map && e.position.grid == position {
                let living = match self.combatants.get(&k) {
                    None => true,
                    Some(c) => c.health > 0,
                };
                if living {
                    assert(self@.entities.contains_key(k));
                    return true;
                }
            }
            i = i + 1;
        }
        proof {
            assert forall|k: u64| #[trigger] self@.entities.contains_key(k) implies !(
            self@.entities[k].position.map == map && self@.entities[k].position.grid == position && (
            !self@.combatants.contains_key(k) || self@.combatants[k].health > 0)) by {
                assert(keys@.to_set().contains(k));
                let j = choose|j: int| 0 <= j < keys@.len() && keys@[j] == k;
                assert(keys@[j] == k);
            }
        }
        false
    }

    /// Changes a terrain cell, unless the new cell would block movement on a
    /// cell where a living entity stands, or the map is unknown.
    pub fn set_terrain_cell(&mut self, map: MapId, position: GridPos, cell: TerrainCell) -> (changed: bool)
        requires
            old(self).wf(),
        ensures
            final(self).wf(),
            changed == (!(cell.movement_blocked && occupied_by_living(old(self)@, map, position))
                && old(self)@.maps.contains_key(map.0)),
            changed ==> final(self)@.maps.dom() == old(self)@.maps.dom() && final(self)@ == (SimState {
                maps: final(self)@.maps,
                ..old(self)@
            }) && final(self)@.maps[map.0].id == map && final(self)@.maps[map.0].cell_at(position)
                == Some(cell) && (forall|q: GridPos|
                q != position ==> #[trigger] final(self)@.maps[map.0].cell_at(q)
                    == old(self)@.maps[map.0].cell_at(q)) && (forall|k: u32|
                k != map.0 && #[trigger] old(self)@.maps.contains_key(k) ==> final(self)@.maps[k]
                    == old(self)@.maps[k]),
            !changed ==> final(self)@ == old(self)@,
    {
        if cell.movement_blocked && self.living_occupant(map, position) {
            return false;
        }
        if !self.maps.contains_key(&map.0) {
            return false;
        }
        let mut target = self.maps.remove(&map.0).unwrap();
        target.set_cell(position, cell);
        self.maps.insert(map.0, target);
        assert(self@.maps.dom() =~= old(self)@.maps.dom());
        assert(self@ =~= (SimState { maps: self@.maps, ..old(self)@ }));
        true
    }

    /// Attaches a container to an item entity.
    pub fn add_container(&mut self, container: Container) -> (result: Result<(), GameplayBuildError>)
        requires
            old(self).wf(),
        ensures
            final(self).wf(),
            result == if !old(self)@.entities.contains_key(container.entity.0) {
                Err::<(), GameplayBuildError>(GameplayBuildError::MissingEntity(container.entity))
            } else if !container_valid(old(self)@, container) {
                Err(GameplayBuildError::InvalidContainer(container.entity))
            } else {
                Ok(())
            },
            result is Err ==> final(self)@ == old(self)@,
            result is Ok ==> {
                &&& final(self)@.containers == old(self)@.containers.insert(container.entity.0, container)
                &&& final(self)@.inventories.dom() == old(self)@.inventories.dom().insert(container.entity.0)
                &&& held_items(final(self)@.inventories, container.entity.0) == held_items(
                    old(self)@.inventories,
                    container.entity.0,
                )
                &&& forall|k: u64| k != container.entity.0 && #[trigger] old(self)@.inventories.contains_key(k)
                    ==> final(self)@.inventories[k] == old(self)@.inventories[k]
                &&& final(self)@ == (SimState {
                    containers: final(self)@.containers,
                    inventories: final(self)@.inventories,
                    ..old(self)@
                })
            },
    {
        let kind = match self.entities.get(&container.entity.0) {
            None => {
                return Err(GameplayBuildError::MissingEntity(container.entity));
            },
            Some(e) => e.kind,
        };
        if kind != EntityKind::Item || container.capacity_grams == 0 || (container.locked
            && container.lock_code.is_none()) || !self.entities.contains_key(&container.owner.0)
            || self.containers.contains_key(&container.entity.0) {
            return Err(GameplayBuildError::InvalidContainer(container.entity));
        }
        let key = container.entity.0;
        if !self.inventories.contains_key(&key) {
            self.inventories.insert(key, Inventory::new(container.entity));
        }
        self.containers.insert(key, container);
        assert(self@.inventories.dom() =~= old(self)@.inventories.dom().insert(key));
        assert(held_items(self@.inventories, key) =~= held_items(old(self)@.inventories, key));
        assert(self@ =~= (SimState {
            containers: self@.containers,
            inventories: self@.inventories,
            ..old(self)@
        }));
        Ok(())
    }

    /// Gives an entity combat statistics.
    pub fn add_combatant(&mut self, combatant: Combatant) -> (result: Result<(), GameplayBuildError>)
        requires
            old(self).wf(),
        ensures
            final(self).wf(),
            result == if !old(self)@.entities.contains_key(combatant.entity.0) {
                Err::<(), GameplayBuildError>(GameplayBuildError::MissingEntity(combatant.entity))
            } else if !combatant_valid(combatant) {
                Err(GameplayBuildError::InvalidCombatant(combatant.entity))
            } else {
                Ok(())
            },
            result is Ok ==> final(self)@ == (SimState {
                combatants: old(self)@.combatants.insert(combatant.entity.0, combatant),
                ..old(self)@
            }),
            result is Err ==> final(self)@ == old(self)@,
    {
        if !self.entities.contains_key(&combatant.entity.0) {
            return Err(GameplayBuildError::MissingEntity(combatant.entity));
        }
        if combatant.max_health <= 0 || combatant.health <= 0 || combatant.health > combatant.max_health
            || combatant.armor < 0 {
            return Err(GameplayBuildError::InvalidCombatant(combatant.entity));
        }
        self.combatants.insert(combatant.entity.0, combatant);
        assert(self@ =~= (SimState {
            combatants: old(self)@.combatants.insert(combatant.entity.0, combatant),
            ..old(self)@
        }));
        Ok(())
    }

    /// Marks an entity as a healer who revives a defeated player.
    pub fn register_healer(&mut self, entity: EntityId) -> (result: Result<(), GameplayBuildError>)
        requires
            old(self).wf(),
        ensures
            final(self).wf(),
            result == if !old(self)@.entities.contains_key(entity.0) {
                Err::<(), GameplayBuildError>(GameplayBuildError::MissingEntity(entity))
            } else {
                Ok(())
            },
            result is Ok ==> final(self)@ == (SimState {
                healers: old(self)@.healers.insert(entity.0),
                ..old(self)@
            }),
            result is Err ==> final(self)@ == old(self)@,
    {
        if !self.entities.contains_key(&entity.0) {
            return Err(GameplayBuildError::MissingEntity(entity));
        }
        self.healers.insert(entity.0);
        assert(self@ =~= (SimState { healers: old(self)@.healers.insert(entity.0), ..old(self)@ }));
        Ok(())
    }

    /// Adds stairs or a passage between two open cells.
    pub fn add_transition(&mut self, transition: Transition) -> (result: Result<(), GameplayBuildError>)
        requires
            old(self).wf(),
        ensures
            final(self).wf(),
            result == if old(self)@.transitions.contains_key(position_key(transition.from)) {
                Err::<(), GameplayBuildError>(GameplayBuildError::DuplicateTransition(transition.from))
            } else if !(cell_open(old(self)@, transition.from) && cell_open(old(self)@, transition.to)) {
                Err(GameplayBuildError::InvalidTransition(transition.from))
            } else {
                Ok(())
            },
            result is Ok ==> final(self)@ == (SimState {
                transitions: old(self)@.transitions.insert(position_key(transition.from), transition),
                ..old(self)@
            }),
            result is Err ==> final(self)@ == old(self)@,
    {
        let key = position_key_exec(transition.from);
        if self.transitions.contains_key(&key) {
            return Err(GameplayBuildError::DuplicateTransition(transition.from));
        }
        if !(self.cell_open_exec(transition.from) && self.cell_open_exec(transition.to)) {
            return Err(GameplayBuildError::InvalidTransition(transition.from));
        }
        self.transitions.insert(key, transition);
        assert(self@ =~= (SimState {
            transitions: old(self)@.transitions.insert(position_key(transition.from), transition),
            ..old(self)@
        }));
        Ok(())
    }

    /// Adds a quest whose giver and objectives refer to known entities and items.
    pub fn add_quest(&mut self, quest: Quest) -> (result: Result<(), GameplayBuildError>)
        requires
            old(self).wf(),
        ensures
            final(self).wf(),
            result == if old(self)@.quests.contains_key(quest.id.0) {
                Err::<(), GameplayBuildError>(GameplayBuildError::DuplicateQuest(quest.id))
            } else if !old(self)@.entities.contains_key(quest.giver.0) {
                Err(GameplayBuildError::MissingEntity(quest.giver))
            } else {
                match quest_objective_problem(old(self)@, quest.objectives@, quest.objectives@.len() as int) {
                    Some(e) => Err(e),
                    None => Ok(()),
                }
            },
            result is Ok ==> final(self)@ == (SimState {
                quests: old(self)@.quests.insert(quest.id.0, quest),
                ..old(self)@
            }),
            result is Err ==> final(self)@ == old(self)@,
    {
        if self.quests.contains_key(&quest.id.0) {
            return Err(GameplayBuildError::DuplicateQuest(quest.id));
        }
        if !self.entities.contains_key(&quest.giver.0) {
            return Err(GameplayBuildError::MissingEntity(quest.giver));
        }
        let mut i: usize = 0;
        while i < quest.objectives.len()
            invariant
                i <= quest.objectives@.len(),
                quest_objective_problem(self@, quest.objectives@, i as int).is_none(),
                self@ == old(self)@,
                self.wf(),
                !old(self)@.quests.contains_key(quest.id.0),
                old(self)@.entities.contains_key(quest.giver.0),
            decreases quest.objectives@.len() - i,
        {
            match quest.objectives[i].kind {
                QuestObjectiveKind::Defeat(e) => {
                    if !self.entities.contains_key(&e.0) {
                        proof {
                            lemma_problem_stable(self@, quest.objectives@, i + 1, quest.objectives@.len() as int);
                        }
                        return Err(GameplayBuildError::MissingEntity(e));
                    }
                },
                QuestObjectiveKind::Recover(item) => {
                    if !self.items.contains_key(&item.0) {
                        proof {
                            lemma_problem_stable(self@, quest.objectives@, i + 1, quest.objectives@.len() as int);
                        }
                        return Err(GameplayBuildError::MissingItem(item));
                    }
                },
            }
            i = i + 1;
        }
        let id = quest.id.0;
        self.quests.insert(id, quest);
        assert(self@ =~= (SimState { quests: old(self)@.quests.insert(quest.id.0, quest), ..old(self)@ }));
        Ok(())
    }
}


/// Some split-stack identity at or after the next candidate is still free.
pub open spec fn split_id_available(s: SimState) -> bool {
    exists|c: u64| c >= s.next_split_item_id && !s.items.contains_key(c)
}

/// Some loose-item holder identity at or after the next candidate is still free.
pub open spec fn loose_entity_available(s: SimState) -> bool {
    exists|c: u64| c >= s.next_loose_item_entity && !s.entities.contains_key(c)
}

/// The errors of a whole-item transfer, in the order they are checked.
pub open spec fn transfer_check(s: SimState, item: ItemId, from: EntityId, to: EntityId) -> Option<GameplayBuildError> {
    if !s.entities.contains_key(to.0) {
        Some(GameplayBuildError::MissingEntity(to))
    } else if !s.items.contains_key(item.0) {
        Some(GameplayBuildError::MissingItem(item))
    } else if !container_accepts(s, to.0, s.items[item.0].weight_grams) {
        Some(GameplayBuildError::ContainerFull(to))
    } else if !carries(s, from.0, item.0) {
        Some(GameplayBuildError::ItemNotCarried { item, owner: from })
    } else {
        None
    }
}

/// The errors of a partial transfer, in the order they are checked.
pub open spec fn quantity_transfer_check(
    s: SimState,
    item: ItemId,
    from: EntityId,
    to: EntityId,
    quantity: u16,
) -> Option<GameplayBuildError> {
    if !s.entities.contains_key(to.0) {
        Some(GameplayBuildError::MissingEntity(to))
    } else if !s.items.contains_key(item.0) {
        Some(GameplayBuildError::MissingItem(item))
    } else if quantity == 0 || quantity > s.items[item.0].quantity {
        Some(GameplayBuildError::InvalidQuantity { item, quantity })
    } else if !carries(s, from.0, item.0) {
        Some(GameplayBuildError::ItemNotCarried { item, owner: from })
    } else if !container_accepts(s, to.0, stack_share(s.items[item.0], quantity)) {
        Some(GameplayBuildError::ContainerFull(to))
    } else {
        None
    }
}

/// The item a transfer event reports as having moved.
pub open spec fn moved_item(e: SimulationEvent) -> ItemId {
    match e {
        SimulationEvent::ItemQuantityTransferred { item, .. } => item,
        SimulationEvent::ItemTransferred { item, .. } => item,
        _ => ItemId(0),
    }
}

/// Custody of `item` moved from `from` to `to`; nothing else changed.
pub open spec fn custody_moved(a: SimState, b: SimState, item: u64, from: u64, to: u64) -> bool {
    &&& exists|mid: Map<u64, Inventory>|
        inventory_lost(a.inventories, mid, from, item) && inventory_gained(mid, b.inventories, to, item)
    &&& same_but_inventories(a, b)
}

/// A stack that may absorb `item` in `custodian`'s inventory: the same kind of
/// divisible goods, name, quality, legal owner and theft status.
#[verifier::opaque]
pub open spec fn compatible_stack(s: SimState, custodian: u64, item: u64, candidate: u64) -> bool {
    &&& candidate != item
    &&& carries(s, custodian, candidate)
    &&& s.items.contains_key(candidate)
    &&& is_stackable(s.items[candidate].kind)
    &&& s.items[candidate].name@ == s.items[item].name@
    &&& s.items[candidate].kind == s.items[item].kind
    &&& s.items[candidate].quality == s.items[item].quality
    &&& owner_of(s, candidate) == owner_of(s, item)
    &&& s.stolen.contains(candidate) == s.stolen.contains(item)
}

/// The item can merge into a stack at all.
pub open spec fn mergeable(s: SimState, custodian: u64, item: u64) -> bool {
    s.items.contains_key(item) && is_stackable(s.items[item].kind) && carries(s, custodian, item)
}

/// The smallest compatible stack, if any.
pub open spec fn smallest_compatible(s: SimState, custodian: u64, item: u64) -> Option<u64> {
    if exists|c: u64| compatible_stack(s, custodian, item, c) {
        Some(
            choose|c: u64|
                compatible_stack(s, custodian, item, c) && forall|d: u64|
                    compatible_stack(s, custodian, item, d) ==> c <= d,
        )
    } else {
        None
    }
}

pub fn consume_one_unit(item: &mut Item)
    requires
        old(item).quantity > 0,
    ensures
        *final(item) == (Item {
            quantity: (old(item).quantity - 1) as u16,
            weight_grams: old(item).weight_grams.saturating_sub(stack_share(*old(item), 1)),
            ..*old(item)
        }),
{
    let consumed_weight = stack_weight_for_quantity(item, 1);
    item.quantity = item.quantity - 1;
    item.weight_grams = item.weight_grams.saturating_sub(consumed_weight);
}

fn clone_item(item: &Item) -> (copy: Item)
    ensures
        copy == *item,
{
    Item {
        id: item.id,
        name: item.name.clone(),
        kind: item.kind,
        quantity: item.quantity,
        weight_grams: item.weight_grams,
        quality: item.quality,
    }
}

impl Simulation {
    /// Hands a new item to `custodian` while recording `legal_owner` as its owner.
    pub fn give_item_with_owner(&mut self, custodian: EntityId, legal_owner: EntityId, item: Item) -> (result: Result<(), GameplayBuildError>)
        requires
            old(self).wf(),
        ensures
            final(self).wf(),
            result == if !old(self)@.entities.contains_key(custodian.0) {
                Err::<(), GameplayBuildError>(GameplayBuildError::MissingEntity(custodian))
            } else if !old(self)@.entities.contains_key(legal_owner.0) {
                Err(GameplayBuildError::MissingEntity(legal_owner))
            } else if old(self)@.items.contains_key(item.id.0) {
                Err(GameplayBuildError::DuplicateItem(item.id))
            } else if !container_accepts(old(self)@, custodian.0, item.weight_grams) {
                Err(GameplayBuildError::InvalidContainer(custodian))
            } else {
                Ok(())
            },
            result is Err ==> final(self)@ == old(self)@,
            result is Ok ==> {
                &&& final(self)@.items == old(self)@.items.insert(item.id.0, item)
                &&& final(self)@.legal_owners == old(self)@.legal_owners.insert(item.id.0, legal_owner)
                &&& inventory_gained(old(self)@.inventories, final(self)@.inventories, custodian.0, item.id.0)
                &&& final(self)@ == (SimState {
                    items: final(self)@.items,
                    legal_owners: final(self)@.legal_owners,
                    inventories: final(self)@.inventories,
                    ..old(self)@
                })
            },
    {
        if !self.entities.contains_key(&custodian.0) {
            return Err(GameplayBuildError::MissingEntity(custodian));
        }
        if !self.entities.contains_key(&legal_owner.0) {
            return Err(GameplayBuildError::MissingEntity(legal_owner));
        }
        if self.items.contains_key(&item.id.0) {
            return Err(GameplayBuildError::DuplicateItem(item.id));
        }
        if !self.accepts_weight(custodian.0, item.weight_grams) {
            return Err(GameplayBuildError::InvalidContainer(custodian));
        }
        let id = item.id.0;
        self.items.insert(id, item);
        self.legal_owners.insert(id, legal_owner);
        let ghost mid = self@;
        assert forall|k: u64| #[trigger] mid.legal_owners.contains_key(k) implies mid.items.contains_key(k) by {
            if k != id {
                assert(old(self)@.legal_owners.contains_key(k));
            }
        }
        self.inventory_add(custodian.0, id);
        Ok(())
    }

    /// Hands a new item to an entity that also owns it.
    pub fn give_item(&mut self, owner: EntityId, item: Item) -> (result: Result<(), GameplayBuildError>)
        requires
            old(self).wf(),
        ensures
            final(self).wf(),
            result == if !old(self)@.entities.contains_key(owner.0) {
                Err::<(), GameplayBuildError>(GameplayBuildError::MissingEntity(owner))
            } else if old(self)@.items.contains_key(item.id.0) {
                Err(GameplayBuildError::DuplicateItem(item.id))
            } else if !container_accepts(old(self)@, owner.0, item.weight_grams) {
                Err(GameplayBuildError::InvalidContainer(owner))
            } else {
                Ok(())
            },
            result is Err ==> final(self)@ == old(self)@,
            result is Ok ==> {
                &&& final(self)@.items == old(self)@.items.insert(item.id.0, item)
                &&& final(self)@.legal_owners == old(self)@.legal_owners.insert(item.id.0, owner)
                &&& inventory_gained(old(self)@.inventories, final(self)@.inventories, owner.0, item.id.0)
                &&& final(self)@ == (SimState {
                    items: final(self)@.items,
                    legal_owners: final(self)@.legal_owners,
                    inventories: final(self)@.inventories,
                    ..old(self)@
                })
            },
    {
        self.give_item_with_owner(owner, owner, item)
    }

    /// Moves a whole item from one holder to another, unequipping it.
    pub fn transfer_item(&mut self, item: ItemId, from: EntityId, to: EntityId) -> (result: Result<SimulationEvent, GameplayBuildError>)
        requires
            old(self).wf(),
        ensures
            final(self).wf(),
            match transfer_check(old(self)@, item, from, to) {
                Some(e) => result == Err::<SimulationEvent, GameplayBuildError>(e) && final(self)@ == old(self)@,
                None => result == Ok::<SimulationEvent, GameplayBuildError>(
                    SimulationEvent::ItemTransferred { item, from, to },
                ) && custody_moved(old(self)@, final(self)@, item.0, from.0, to.0),
            },
    {
        if !self.entities.contains_key(&to.0) {
            return Err(GameplayBuildError::MissingEntity(to));
        }
        let weight = match self.items.get(&item.0) {
            None => {
                return Err(GameplayBuildError::MissingItem(item));
            },
            Some(it) => it.weight_grams,
        };
        if !self.accepts_weight(to.0, weight) {
            return Err(GameplayBuildError::ContainerFull(to));
        }
        if !self.inventory_take(from.0, item.0) {
            return Err(GameplayBuildError::ItemNotCarried { item, owner: from });
        }
        let ghost mid = self@.inventories;
        self.inventory_add(to.0, item.0);
        Ok(SimulationEvent::ItemTransferred { item, from, to })
    }

    fn allocate_split_item_id(&mut self) -> (id: ItemId)
        requires
            old(self).wf(),
            split_id_available(old(self)@),
        ensures
            final(self).wf(),
            !old(self)@.items.contains_key(id.0),
            id.0 >= old(self)@.next_split_item_id,
            forall|c: u64| old(self)@.next_split_item_id <= c < id.0 ==> old(self)@.items.contains_key(c),
            final(self)@ == (SimState { next_split_item_id: id.0.saturating_add(1), ..old(self)@ }),
    {
        let ghost w = choose|c: u64| c >= old(self)@.next_split_item_id && !old(self)@.items.contains_key(c);
        let start = self.next_split_item_id;
        let mut candidate = start;
        while self.items.contains_key(&candidate)
            invariant
                self@ == old(self)@,
                start == old(self)@.next_split_item_id,
                start <= candidate <= w,
                !old(self)@.items.contains_key(w),
                forall|c: u64| start <= c < candidate ==> old(self)@.items.contains_key(c),
            decreases w - candidate,
        {
            candidate = candidate + 1;
        }
        self.next_split_item_id = candidate.saturating_add(1);
        ItemId(candidate)
    }

    /// Transfers part of a divisible stack while preserving the source stack's
    /// legal title and stolen status. A partial transfer receives a deterministic
    /// item identity so command replay reconstructs exactly the same inventories.
    pub fn transfer_item_quantity(&mut self, item: ItemId, from: EntityId, to: EntityId, quantity: u16) -> (result: Result<SimulationEvent, GameplayBuildError>)
        requires
            old(self).wf(),
            quantity_transfer_check(old(self)@, item, from, to, quantity) is None && quantity < old(self)@.items[item.0].quantity
                ==> split_id_available(old(self)@),
        ensures
            final(self).wf(),
            match quantity_transfer_check(old(self)@, item, from, to, quantity) {
                Some(e) => result == Err::<SimulationEvent, GameplayBuildError>(e) && final(self)@ == old(self)@,
                None => {
                    let source = old(self)@.items[item.0];
                    let share = stack_share(source, quantity);
                    if quantity == source.quantity {
                        &&& result == Ok::<SimulationEvent, GameplayBuildError>(
                            SimulationEvent::ItemQuantityTransferred { source: item, item, quantity, from, to },
                        )
                        &&& custody_moved(old(self)@, final(self)@, item.0, from.0, to.0)
                    } else {
                        exists|moved: u64| {
                            &&& result == Ok::<SimulationEvent, GameplayBuildError>(
                                SimulationEvent::ItemQuantityTransferred {
                                    source: item,
                                    item: ItemId(moved),
                                    quantity,
                                    from,
                                    to,
                                },
                            )
                            &&& !old(self)@.items.contains_key(moved)
                            &&& moved >= old(self)@.next_split_item_id
                            &&& forall|c: u64|
                                old(self)@.next_split_item_id <= c < moved ==> #[trigger] old(self)@.items.contains_key(c)
                            &&& final(self)@.next_split_item_id == moved.saturating_add(1)
                            &&& final(self)@.items == old(self)@.items.insert(
                                item.0,
                                Item {
                                    quantity: (source.quantity - quantity) as u16,
                                    weight_grams: (source.weight_grams - share) as u32,
                                    ..source
                                },
                            ).insert(
                                moved,
                                Item { id: ItemId(moved), quantity, weight_grams: share, ..source },
                            )
                            &&& final(self)@.legal_owners == if old(self)@.legal_owners.contains_key(item.0) {
                                old(self)@.legal_owners.insert(moved, old(self)@.legal_owners[item.0])
                            } else {
                                old(self)@.legal_owners
                            }
                            &&& final(self)@.stolen == if old(self)@.stolen.contains(item.0) {
                                old(self)@.stolen.insert(moved)
                            } else {
                                old(self)@.stolen
                            }
                            &&& inventory_gained(old(self)@.inventories, final(self)@.inventories, to.0, moved)
                            &&& final(self)@ == (SimState {
                                items: final(self)@.items,
                                legal_owners: final(self)@.legal_owners,
                                stolen: final(self)@.stolen,
                                inventories: final(self)@.inventories,
                                next_split_item_id: final(self)@.next_split_item_id,
                                ..old(self)@
                            })
                        }
                    }
                },
            },
            result is Ok ==> {
                let m = moved_item(result.unwrap()).0;
                &&& result.unwrap() == (SimulationEvent::ItemQuantityTransferred {
                    source: item,
                    item: ItemId(m),
                    quantity,
                    from,
                    to,
                })
                &&& final(self)@.items.contains_key(m)
                &&& carries(final(self)@, to.0, m)
                &&& owner_of(final(self)@, m) == owner_of(old(self)@, item.0)
                &&& final(self)@.stolen.contains(m) == old(self)@.stolen.contains(item.0)
                &&& final(self)@ == (SimState {
                    items: final(self)@.items,
                    legal_owners: final(self)@.legal_owners,
                    stolen: final(self)@.stolen,
                    inventories: final(self)@.inventories,
                    next_split_item_id: final(self)@.next_split_item_id,
                    ..old(self)@
                })
            },
    {
        if !self.entities.contains_key(&to.0) {
            return Err(GameplayBuildError::MissingEntity(to));
        }
        let source = match self.items.get(&item.0) {
            None => {
                return Err(GameplayBuildError::MissingItem(item));
            },
            Some(it) => clone_item(it),
        };
        if quantity == 0 || quantity > source.quantity {
            return Err(GameplayBuildError::InvalidQuantity { item, quantity });
        }
        let carried = match self.inventories.get(&from.0) {
            None => false,
            Some(inventory) => inventory.items.contains(&item.0),
        };
        if !carried {
            return Err(GameplayBuildError::ItemNotCarried { item, owner: from });
        }
        let moved_weight = stack_weight_for_quantity(&source, quantity);
        if !self.accepts_weight(to.0, moved_weight) {
            return Err(GameplayBuildError::ContainerFull(to));
        }
        if quantity == source.quantity {
            self.inventory_take(from.0, item.0);
            let ghost mid = self@.inventories;
            self.inventory_add(to.0, item.0);
            assert(self@.inventories[to.0].items@.contains(item.0));
            return Ok(
                SimulationEvent::ItemQuantityTransferred { source: item, item, quantity, from, to },
            );
        }
        let moved = self.allocate_split_item_id();
        let ghost after_alloc = self@;
        let mut split = clone_item(&source);
        split.id = moved;
        split.quantity = quantity;
        split.weight_grams = moved_weight;
        let mut remaining = source;
        remaining.quantity = remaining.quantity - quantity;
        remaining.weight_grams = remaining.weight_grams - moved_weight;
        self.items.insert(item.0, remaining);
        self.items.insert(moved.0, split);
        match self.legal_owners.get(&item.0) {
            Some(owner) => {
                let owner = *owner;
                self.legal_owners.insert(moved.0, owner);
            },
            None => {},
        }
        if self.stolen_items.contains(&item.0) {
            self.stolen_items.insert(moved.0);
        }
        let ghost before_add = self@;
        self.inventory_add(to.0, moved.0);
        proof {
            assert(!old(self)@.legal_owners.contains_key(moved.0));
            assert(!old(self)@.stolen.contains(moved.0));
            assert(self@.inventories[to.0].items@.contains(moved.0));
            assert(self@.items == old(self)@.items.insert(item.0, remaining).insert(moved.0, split));
            assert(self@ =~= (SimState {
                items: self@.items,
                legal_owners: self@.legal_owners,
                stolen: self@.stolen,
                inventories: self@.inventories,
                next_split_item_id: self@.next_split_item_id,
                ..old(self)@
            }));
        }
        Ok(
            SimulationEvent::ItemQuantityTransferred {
                source: item,
                item: moved,
                quantity,
                from,
                to,
            },
        )
    }

    fn inventory_forget(&mut self, holder: u64, item: u64)
        requires
            old(self).wf(),
            old(self)@.inventories.contains_key(holder),
        ensures
            final(self).wf(),
            final(self)@.inventories == old(self)@.inventories.insert(
                holder,
                final(self)@.inventories[holder],
            ),
            final(self)@.inventories[holder].items@ == old(self)@.inventories[holder].items@.remove(item),
            final(self)@.inventories[holder].owner == old(self)@.inventories[holder].owner,
            final(self)@.inventories[holder].equipped_melee == old(self)@.inventories[holder].equipped_melee,
            final(self)@.inventories[holder].equipped_ranged == old(self)@.inventories[holder].equipped_ranged,
            same_but_inventories(old(self)@, final(self)@),
    {
        let mut inventory = self.inventories.remove(&holder).unwrap();
        inventory.items.remove(&item);
        self.inventories.insert(holder, inventory);
        assert(self@ =~= (SimState { inventories: self@.inventories, ..old(self)@ }));
    }

    fn is_compatible(&self, custodian: u64, item: u64, candidate: u64) -> (compatible: bool)
        requires
            mergeable(self@, custodian, item),
            carries(self@, custodian, candidate),
        ensures
            compatible == compatible_stack(self@, custodian, item, candidate),
    {
        reveal(compatible_stack);
        if candidate == item {
            return false;
        }
        let target = self.items.get(&item).unwrap();
        match self.items.get(&candidate) {
            None => false,
            Some(c) => item_kind_is_stackable(c.kind) && c.name == target.name && c.kind == target.kind
                && c.quality == target.quality && self.legal_owner(ItemId(candidate)) == self.legal_owner(
                ItemId(item),
            ) && self.stolen_items.contains(&candidate) == self.stolen_items.contains(&item),
        }
    }

    proof fn lemma_compatible_facts(s: SimState, custodian: u64, item: u64, c: u64)
        requires
            compatible_stack(s, custodian, item, c),
        ensures
            carries(s, custodian, c),
            s.items.contains_key(c),
            c != item,
            owner_of(s, c) == owner_of(s, item),
            s.stolen.contains(c) == s.stolen.contains(item),
    {
        reveal(compatible_stack);
    }

    proof fn lemma_smallest_found(s: SimState, custodian: u64, item: u64, members: Seq<u64>, i: int)
        requires
            members.to_set() == s.inventories[custodian].items@,
            strictly_increasing(members),
            0 <= i < members.len(),
            forall|j: int| 0 <= j < i ==> !compatible_stack(s, custodian, item, #[trigger] members[j]),
            compatible_stack(s, custodian, item, members[i]),
        ensures
            smallest_compatible(s, custodian, item) == Some(members[i]),
    {
        let c = members[i];
        assert forall|d: u64| compatible_stack(s, custodian, item, d) implies c <= d by {
            Self::lemma_compatible_facts(s, custodian, item, d);
            assert(members.to_set().contains(d));
            let di = choose|di: int| 0 <= di < members.len() && members[di] == d;
            if di < i {
                assert(!compatible_stack(s, custodian, item, members[di]));
            }
            if di > i {
                assert(members[i] < members[di]);
            }
        }
        let m = choose|m: u64|
            compatible_stack(s, custodian, item, m) && forall|d: u64|
                compatible_stack(s, custodian, item, d) ==> m <= d;
        assert(compatible_stack(s, custodian, item, m) && m <= c);
        assert(c <= m);
    }

    proof fn lemma_none_compatible(s: SimState, custodian: u64, item: u64, members: Seq<u64>)
        requires
            s.inventories.contains_key(custodian),
            members.to_set() == s.inventories[custodian].items@,
            forall|j: int| 0 <= j < members.len() ==> !compatible_stack(s, custodian, item, #[trigger] members[j]),
        ensures
            smallest_compatible(s, custodian, item).is_none(),
    {
        assert forall|d: u64| !compatible_stack(s, custodian, item, d) by {
            if compatible_stack(s, custodian, item, d) {
                Self::lemma_compatible_facts(s, custodian, item, d);
                assert(members.to_set().contains(d));
                let di = choose|di: int| 0 <= di < members.len() && members[di] == d;
                assert(!compatible_stack(s, custodian, item, members[di]));
            }
        }
    }

    fn find_compatible(&self, custodian: u64, item: u64) -> (found: Option<u64>)
        requires
            mergeable(self@, custodian, item),
        ensures
            found == smallest_compatible(self@, custodian, item),
            found is Some ==> compatible_stack(self@, custodian, item, found.unwrap()),
    {
        let inventory = self.inventories.get(&custodian).unwrap();
        let members = set_members(&inventory.items);
        let mut i: usize = 0;
        while i < members.len()
            invariant
                mergeable(self@, custodian, item),
                members@.to_set() == self@.inventories[custodian].items@,
                strictly_increasing(members@),
                i <= members@.len(),
                forall|j: int| 0 <= j < i ==> !compatible_stack(self@, custodian, item, #[trigger] members@[j]),
            decreases members@.len() - i,
        {
            let c = members[i];
            assert(members@.to_set().contains(c));
            if self.is_compatible(custodian, item, c) {
                proof {
                    Self::lemma_smallest_found(self@, custodian, item, members@, i as int);
                }
                return Some(c);
            }
            i = i + 1;
        }
        proof {
            Self::lemma_none_compatible(self@, custodian, item, members@);
        }
        None
    }

    /// Coalesces a compatible divisible stack already held by `custodian`.
    /// The lowest item identity survives, keeping repeated transfers stable and
    /// preventing inventories from filling with one-unit fragments.
    #[verifier::rlimit(100)]
    pub fn merge_compatible_stack(&mut self, custodian: EntityId, item: ItemId) -> (survivor: ItemId)
        requires
            old(self).wf(),
        ensures
            final(self).wf(),
            !mergeable(old(self)@, custodian.0, item.0) || smallest_compatible(old(self)@, custodian.0, item.0) is None
                ==> survivor == item && final(self)@ == old(self)@,
            mergeable(old(self)@, custodian.0, item.0) && smallest_compatible(old(self)@, custodian.0, item.0) is Some
                ==> {
                let other = smallest_compatible(old(self)@, custodian.0, item.0).unwrap();
                let kept = if item.0 < other { item.0 } else { other };
                let gone = if item.0 < other { other } else { item.0 };
                let kept_item = old(self)@.items[kept];
                let gone_item = old(self)@.items[gone];
                &&& survivor == ItemId(kept)
                &&& final(self)@.items == old(self)@.items.remove(gone).insert(
                    kept,
                    Item {
                        quantity: kept_item.quantity.saturating_add(gone_item.quantity),
                        weight_grams: kept_item.weight_grams.saturating_add(gone_item.weight_grams),
                        ..kept_item
                    },
                )
                &&& final(self)@.inventories.dom() == old(self)@.inventories.dom()
                &&& final(self)@.inventories[custodian.0].items@ == old(self)@.inventories[custodian.0].items@.remove(gone)
                &&& final(self)@.inventories[custodian.0].owner == old(self)@.inventories[custodian.0].owner
                &&& final(self)@.inventories[custodian.0].equipped_melee == old(self)@.inventories[custodian.0].equipped_melee
                &&& final(self)@.inventories[custodian.0].equipped_ranged == old(self)@.inventories[custodian.0].equipped_ranged
                &&& forall|k: u64| k != custodian.0 && #[trigger] old(self)@.inventories.contains_key(k)
                    ==> final(self)@.inventories[k] == old(self)@.inventories[k]
                &&& final(self)@.legal_owners == old(self)@.legal_owners.remove(gone)
                &&& final(self)@.stolen == old(self)@.stolen.remove(gone)
                &&& final(self)@.read_items == old(self)@.read_items.remove(gone)
                &&& final(self)@ == (SimState {
                    items: final(self)@.items,
                    inventories: final(self)@.inventories,
                    legal_owners: final(self)@.legal_owners,
                    stolen: final(self)@.stolen,
                    read_items: final(self)@.read_items,
                    ..old(self)@
                })
            },
            owner_of(final(self)@, survivor.0) == owner_of(old(self)@, item.0),
            final(self)@.stolen.contains(survivor.0) == old(self)@.stolen.contains(item.0),
            old(self)@.items.contains_key(item.0) ==> final(self)@.items.contains_key(survivor.0),
            carries(old(self)@, custodian.0, item.0) ==> carries(final(self)@, custodian.0, survivor.0),
            final(self)@.tick == old(self)@.tick,
            final(self)@.entities == old(self)@.entities,
    {
        let kind = match self.items.get(&item.0) {
            None => {
                return item;
            },
            Some(it) => it.kind,
        };
        let carried = match self.inventories.get(&custodian.0) {
            None => false,
            Some(inventory) => inventory.items.contains(&item.0),
        };
        if !item_kind_is_stackable(kind) || !carried {
            return item;
        }
        let other = match self.find_compatible(custodian.0, item.0) {
            None => {
                return item;
            },
            Some(o) => o,
        };
        proof {
            Self::lemma_compatible_facts(old(self)@, custodian.0, item.0, other);
        }
        let (kept, gone) = if item.0 < other { (item.0, other) } else { (other, item.0) };
        let gone_quantity = self.items.get(&gone).unwrap().quantity;
        let gone_weight = self.items.get(&gone).unwrap().weight_grams;
        let mut kept_item = clone_item(self.items.get(&kept).unwrap());
        kept_item.quantity = kept_item.quantity.saturating_add(gone_quantity);
        kept_item.weight_grams = kept_item.weight_grams.saturating_add(gone_weight);
        self.items.remove(&gone);
        self.items.insert(kept, kept_item);
        assert(kept_item.id.0 == kept);
        self.legal_owners.remove(&gone);
        self.stolen_items.remove(&gone);
        self.inventory_forget(custodian.0, gone);
        self.read_items.remove(&gone);
        proof {
            assert(self@.items =~= old(self)@.items.remove(gone).insert(kept, kept_item));
            assert(self@.inventories.dom() =~= old(self)@.inventories.dom());
            assert(self@ =~= (SimState {
                items: self@.items,
                inventories: self@.inventories,
                legal_owners: self@.legal_owners,
                stolen: self@.stolen,
                read_items: self@.read_items,
                ..old(self)@
            }));
        }
        ItemId(kept)
    }
}


/// A refused command: no time passes, nothing changes, one failure event.
pub open spec fn is_failure(o: CommandOutcome, reason: ActionFailure) -> bool {
    &&& !o.advanced_time
    &&& !o.changed_world
    &&& o.events@ == seq![SimulationEvent::ActionFailed(reason)]
}

/// A command that had no effect and reports nothing.
pub open spec fn is_idle(o: CommandOutcome) -> bool {
    !o.advanced_time && !o.changed_world && o.events@ == Seq::<SimulationEvent>::empty()
}

/// Where the player stands.
pub open spec fn player_position(s: SimState) -> WorldPosition {
    s.entities[s.player.0].position
}

/// Both entities exist on the same map layer, at most one step apart.
pub open spec fn adjacent(s: SimState, first: u64, second: u64) -> bool {
    &&& s.entities.contains_key(first)
    &&& s.entities.contains_key(second)
    &&& s.entities[first].position.map == s.entities[second].position.map
    &&& s.entities[first].position.grid.z == s.entities[second].position.grid.z
    &&& taxicab_distance(s.entities[first].position.grid, s.entities[second].position.grid) <= 1
}

/// The size of a stack, zero for an unknown item.
pub open spec fn stack_quantity_of(s: SimState, item: u64) -> u16 {
    if s.items.contains_key(item) {
        s.items[item].quantity
    } else {
        0
    }
}

/// An item after one unit of it was used up; its weight shrinks by one unit's share.
pub open spec fn one_unit_consumed(item: Item) -> Item {
    Item {
        quantity: (item.quantity - 1) as u16,
        weight_grams: item.weight_grams.saturating_sub(stack_share(item, 1)),
        ..item
    }
}

/// The kind of an item the player carries, if the player carries it and it exists.
pub open spec fn carried_kind(s: SimState, item: u64) -> Option<ItemKind> {
    if carries(s, s.player.0, item) && s.items.contains_key(item) {
        Some(s.items[item].kind)
    } else {
        None
    }
}

/// Damage dealt by a blow of `raw` strength against `armor`: at least one point.
pub open spec fn damage_amount(raw: i16, armor: i16) -> i16 {
    if raw - armor >= 1 {
        (raw - armor) as i16
    } else {
        1
    }
}

/// Health left after taking `damage`, never below zero.
pub open spec fn health_after(health: i16, damage: i16) -> i16 {
    if health - damage > 0 {
        (health - damage) as i16
    } else {
        0
    }
}

/// The state after `target` takes a blow of `raw` strength.
pub open spec fn after_damage(s: SimState, target: u64, raw: i16) -> SimState {
    let c = s.combatants[target];
    let health = health_after(c.health, damage_amount(raw, c.armor));
    SimState {
        combatants: s.combatants.insert(target, Combatant { health, ..c }),
        paused: s.paused || (health == 0 && target == s.player.0),
        ..s
    }
}

/// The events of such a blow: the damage, then the defeat when health reached zero.
pub open spec fn damage_notices(s: SimState, attacker: EntityId, target: EntityId, raw: i16, method: CombatMethod) -> Seq<
    SimulationEvent,
> {
    let c = s.combatants[target.0];
    let amount = damage_amount(raw, c.armor);
    let health = health_after(c.health, amount);
    seq![SimulationEvent::Damaged { attacker, target, amount, remaining_health: health, method }] + if health
        == 0 {
        seq![SimulationEvent::Defeated { entity: target, by: attacker }]
    } else {
        Seq::<SimulationEvent>::empty()
    }
}

/// The level reached with `experience`: the first level whose threshold
/// (one hundred per level) exceeds it, capped at the largest level.
pub open spec fn level_target(level: u16, experience: u32) -> u16 {
    let needed = experience as int / 100 + 1;
    if level as int >= needed {
        level
    } else if needed > u16::MAX {
        u16::MAX
    } else {
        needed as u16
    }
}

/// `v`, saturated at the largest `i16`.
pub open spec fn capped_i16(v: int) -> i16 {
    if v > i16::MAX {
        i16::MAX
    } else {
        v as i16
    }
}

/// The level-up notices for `count` levels gained from `level`.
pub open spec fn level_notices(level: u16, attack_bonus: i16, max_health: i16, has_combatant: bool, count: nat) -> Seq<
    SimulationEvent,
> {
    Seq::new(
        count,
        |i: int|
            SimulationEvent::LevelGained {
                level: (level + i + 1) as u16,
                max_health: if has_combatant {
                    capped_i16(max_health + 2 * (i + 1))
                } else {
                    0
                },
                attack_bonus: capped_i16(attack_bonus + i + 1),
            },
    )
}

/// The state after the player earns `amount` experience: every threshold
/// crossed raises the level and attack bonus by one and the player's maximum
/// health by two, restoring health to the new maximum.
pub open spec fn after_experience(s: SimState, amount: u32) -> SimState {
    if amount == 0 {
        s
    } else {
        let p = s.progression;
        let experience = p.experience.saturating_add(amount);
        let level = level_target(p.level, experience);
        let gained = level - p.level;
        let player = s.player.0;
        let c = s.combatants[player];
        let max_health = capped_i16(c.max_health + 2 * gained);
        SimState {
            progression: CharacterProgression {
                level,
                experience,
                attack_bonus: capped_i16(p.attack_bonus + gained),
                ..p
            },
            combatants: if s.combatants.contains_key(player) && gained > 0 {
                s.combatants.insert(player, Combatant { max_health, health: max_health, ..c })
            } else {
                s.combatants
            },
            ..s
        }
    }
}

/// The events of earning `amount` experience.
pub open spec fn experience_notices(s: SimState, amount: u32) -> Seq<SimulationEvent> {
    if amount == 0 {
        Seq::empty()
    } else {
        let p = s.progression;
        let experience = p.experience.saturating_add(amount);
        let level = level_target(p.level, experience);
        let player = s.player.0;
        seq![SimulationEvent::ExperienceGained { amount, total: experience }] + level_notices(
            p.level,
            p.attack_bonus,
            s.combatants[player].max_health,
            s.combatants.contains_key(player),
            (level - p.level) as nat,
        )
    }
}

/// The state after the player first sees `map`: exploration and discoveries
/// grow and ten experience is earned; a map seen before changes nothing.
pub open spec fn after_discovery(s: SimState, map: MapId) -> SimState {
    if s.visited_maps.contains(map.0) {
        s
    } else {
        after_experience(
            SimState {
                visited_maps: s.visited_maps.insert(map.0),
                progression: CharacterProgression {
                    exploration: s.progression.exploration.saturating_add(1),
                    discoveries: s.progression.discoveries.saturating_add(1),
                    ..s.progression
                },
                ..s
            },
            10,
        )
    }
}

/// The events of seeing `map`.
pub open spec fn discovery_notices(s: SimState, map: MapId) -> Seq<SimulationEvent> {
    if s.visited_maps.contains(map.0) {
        Seq::empty()
    } else {
        experience_notices(
            SimState {
                progression: CharacterProgression {
                    exploration: s.progression.exploration.saturating_add(1),
                    discoveries: s.progression.discoveries.saturating_add(1),
                    ..s.progression
                },
                ..s
            },
            10,
        )
    }
}

proof fn lemma_hundreds(e: int, l: int)
    by (nonlinear_arith)
    requires
        e >= 0,
        l >= 0,
    ensures
        (e >= l * 100) == (l <= e / 100),
        (e < l * 100) == (l >= e / 100 + 1),
{
}

fn abs_i64(v: i64) -> (r: i64)
    requires
        v > i64::MIN,
    ensures
        r == abs_int(v as int),
{
    if v < 0 {
        -v
    } else {
        v
    }
}

/// Whether two positions are at most `limit` four-way steps apart.
pub fn taxicab_within(first: GridPos, second: GridPos, limit: i64) -> (within: bool)
    ensures
        within == (taxicab_distance(first, second) <= limit),
{
    let dx = abs_i64(first.x as i64 - second.x as i64);
    let dy = abs_i64(first.y as i64 - second.y as i64);
    dx + dy <= limit
}

/// Whether two positions are at most `limit` king-moves apart.
pub fn chebyshev_within(first: GridPos, second: GridPos, limit: i64) -> (within: bool)
    ensures
        within == (chebyshev_distance(first, second) <= limit),
{
    let dx = abs_i64(first.x as i64 - second.x as i64);
    let dy = abs_i64(first.y as i64 - second.y as i64);
    dx <= limit && dy <= limit
}

/// `value + delta` for a non-negative `delta`, saturated at the largest `i16`.
fn add_capped(value: i16, delta: i16) -> (sum: i16)
    requires
        delta >= 0,
    ensures
        sum == capped_i16(value + delta),
{
    if value > i16::MAX - delta {
        i16::MAX
    } else {
        value + delta
    }
}

fn single_event(event: SimulationEvent) -> (events: Vec<SimulationEvent>)
    ensures
        events@ == seq![event],
{
    let mut events = Vec::new();
    events.push(event);
    events
}

fn failed(reason: ActionFailure) -> (outcome: CommandOutcome)
    ensures
        is_failure(outcome, reason),
{
    CommandOutcome {
        advanced_time: false,
        changed_world: false,
        events: single_event(SimulationEvent::ActionFailed(reason)),
    }
}

fn idle() -> (outcome: CommandOutcome)
    ensures
        is_idle(outcome),
{
    CommandOutcome { advanced_time: false, changed_world: false, events: Vec::new() }
}

impl Simulation {
    fn player_carries(&self, item: ItemId) -> (carried: bool)
        ensures
            carried == carries(self@, self@.player.0, item.0),
    {
        match self.inventories.get(&self.player.0) {
            None => false,
            Some(inventory) => inventory.items.contains(&item.0),
        }
    }

    fn stack_quantity(&self, item: ItemId) -> (quantity: u16)
        ensures
            quantity == stack_quantity_of(self@, item.0),
    {
        match self.items.get(&item.0) {
            None => 0,
            Some(it) => it.quantity,
        }
    }

    fn entities_are_adjacent(&self, first: EntityId, second: EntityId) -> (near: bool)
        ensures
            near == adjacent(self@, first.0, second.0),
    {
        let a = match self.entities.get(&first.0) {
            None => {
                return false;
            },
            Some(e) => e.position,
        };
        let b = match self.entities.get(&second.0) {
            None => {
                return false;
            },
            Some(e) => e.position,
        };
        a.map == b.map && a.grid.z == b.grid.z && taxicab_within(a.grid, b.grid, 1)
    }

    fn carried_item_kind(&self, item: ItemId) -> (kind: Option<ItemKind>)
        ensures
            kind == carried_kind(self@, item.0),
    {
        if !self.player_carries(item) {
            return None;
        }
        match self.items.get(&item.0) {
            None => None,
            Some(it) => Some(it.kind),
        }
    }

    /// Applies a blow of `raw` strength from `attacker` to `target`.
    fn deal_damage(
        &mut self,
        attacker: EntityId,
        target: EntityId,
        raw: i16,
        method: CombatMethod,
        events: &mut Vec<SimulationEvent>,
    )
        requires
            old(self).wf(),
            old(self)@.combatants.contains_key(target.0),
        ensures
            final(self).wf(),
            final(self)@ == after_damage(old(self)@, target.0, raw),
            final(events)@ == old(events)@ + damage_notices(old(self)@, attacker, target, raw, method),
    {
        let c = match self.combatants.get(&target.0) {
            None => {
                return;
            },
            Some(c) => *c,
        };
        assert(combatant_bounded(c));
        let diff: i32 = raw as i32 - c.armor as i32;
        let amount: i16 = if diff >= 1 {
            diff as i16
        } else {
            1
        };
        let left: i32 = c.health as i32 - amount as i32;
        let health: i16 = if left > 0 {
            left as i16
        } else {
            0
        };
        self.combatants.insert(target.0, Combatant { health, ..c });
        events.push(
            SimulationEvent::Damaged { attacker, target, amount, remaining_health: health, method },
        );
        if health == 0 {
            events.push(SimulationEvent::Defeated { entity: target, by: attacker });
            if target.0 == self.player.0 {
                self.paused = true;
            }
        }
        assert(self@ =~= after_damage(old(self)@, target.0, raw));
    }

    /// Credits the player with `amount` experience and applies every level gained.
    fn grant_experience(&mut self, amount: u32, events: &mut Vec<SimulationEvent>)
        requires
            old(self).wf(),
        ensures
            final(self).wf(),
            final(self)@ == after_experience(old(self)@, amount),
            final(events)@ == old(events)@ + experience_notices(old(self)@, amount),
    {
        if amount == 0 {
            return;
        }
        let ghost s0 = self@;
        let ghost base = events@;
        let p0 = self.progression;
        let player = self.player.0;
        let start: Option<Combatant> = match self.combatants.get(&player) {
            None => None,
            Some(c) => Some(*c),
        };
        let ghost with_combatant = s0.combatants.contains_key(player);
        let ghost c0 = s0.combatants[player];
        let experience = p0.experience.saturating_add(amount);
        events.push(SimulationEvent::ExperienceGained { amount, total: experience });
        let ghost target = level_target(p0.level, experience);
        let mut level = p0.level;
        let mut bonus = p0.attack_bonus;
        let mut max_health: i16 = match start {
            None => 0,
            Some(c) => c.max_health,
        };
        let ghost mut gained: nat = 0;
        proof {
            lemma_hundreds(experience as int, p0.level as int);
            assert(with_combatant ==> combatant_bounded(c0));
        }
        while experience >= (level as u32) * 100 && level < u16::MAX
            invariant
                level == p0.level + gained,
                bonus == capped_i16(p0.attack_bonus + gained),
                with_combatant ==> max_health == capped_i16(c0.max_health + 2 * gained),
                with_combatant ==> c0.max_health >= 0,
                !with_combatant ==> max_health == 0,
                start == if with_combatant { Some(c0) } else { None::<Combatant> },
                p0.level + gained <= target,
                experience == p0.experience.saturating_add(amount),
                target == level_target(p0.level, experience),
                events@ == base + seq![SimulationEvent::ExperienceGained { amount, total: experience }]
                    + level_notices(p0.level, p0.attack_bonus, c0.max_health, with_combatant, gained),
            decreases u16::MAX - level,
        {
            proof {
                lemma_hundreds(experience as int, level as int);
            }
            level = level + 1;
            bonus = add_capped(bonus, 1);
            if start.is_some() {
                max_health = add_capped(max_health, 2);
            }
            events.push(SimulationEvent::LevelGained { level, max_health, attack_bonus: bonus });
            proof {
                let old_gained = gained;
                gained = gained + 1;
                assert(level_notices(p0.level, p0.attack_bonus, c0.max_health, with_combatant, gained) =~= level_notices(
                    p0.level,
                    p0.attack_bonus,
                    c0.max_health,
                    with_combatant,
                    old_gained,
                ).push(SimulationEvent::LevelGained { level, max_health, attack_bonus: bonus }));
            }
        }
        proof {
            lemma_hundreds(experience as int, level as int);
        }
        self.progression = CharacterProgression { level, experience, attack_bonus: bonus, ..p0 };
        match start {
            Some(c) => {
                if level != p0.level {
                    let ghost before = self@.combatants;
                    self.combatants.insert(player, Combatant { max_health, health: max_health, ..c });
                    assert forall|k: u64| #[trigger] self@.combatants.contains_key(k) implies combatant_bounded(
                        self@.combatants[k],
                    ) && self@.combatants[k].entity.0 == k by {
                        if k != player {
                            assert(before.contains_key(k));
                        }
                    }
                }
            },
            None => {},
        }
        proof {
            assert(level == target);
            assert(self@ =~= after_experience(s0, amount));
            assert(events@ =~= base + experience_notices(s0, amount));
        }
    }

    /// Records the first visit to `map`.
    fn record_map_discovery(&mut self, map: MapId, events: &mut Vec<SimulationEvent>)
        requires
            old(self).wf(),
        ensures
            final(self).wf(),
            final(self)@ == after_discovery(old(self)@, map),
            final(events)@ == old(events)@ + discovery_notices(old(self)@, map),
    {
        if self.visited_maps.contains(&map.0) {
            assert(events@ =~= old(events)@ + discovery_notices(old(self)@, map));
            return;
        }
        self.visited_maps.insert(map.0);
        self.progression.exploration = self.progression.exploration.saturating_add(1);
        self.progression.discoveries = self.progression.discoveries.saturating_add(1);
        assert(self@ =~= SimState {
            visited_maps: old(self)@.visited_maps.insert(map.0),
            progression: CharacterProgression {
                exploration: old(self)@.progression.exploration.saturating_add(1),
                discoveries: old(self)@.progression.discoveries.saturating_add(1),
                ..old(self)@.progression
            },
            ..old(self)@
        });
        self.grant_experience(10, events);
    }
}


/// What a command reports: whether time passed, whether the world changed, and its events.
pub struct Outcome {
    pub advanced_time: bool,
    pub changed_world: bool,
    pub events: Seq<SimulationEvent>,
}

/// The abstract view of a command outcome.
pub open spec fn outcome_of(o: CommandOutcome) -> Outcome {
    Outcome { advanced_time: o.advanced_time, changed_world: o.changed_world, events: o.events@ }
}

/// A refusal that leaves `s` as it is.
pub open spec fn refusal(s: SimState, reason: ActionFailure) -> (SimState, Outcome) {
    (s, Outcome { advanced_time: false, changed_world: false, events: seq![SimulationEvent::ActionFailed(reason)] })
}

/// Nothing happens and nothing is reported.
pub open spec fn no_effect(s: SimState) -> (SimState, Outcome) {
    (s, Outcome { advanced_time: false, changed_world: false, events: Seq::empty() })
}

pub proof fn lemma_wf_inventory_update(s: SimState, k: u64, inv: Inventory)
    requires
        state_wf(s),
        inv.owner.0 == k,
    ensures
        state_wf(SimState { inventories: s.inventories.insert(k, inv), ..s }),
{
    let t = SimState { inventories: s.inventories.insert(k, inv), ..s };
    assert forall|j: u64| #[trigger] t.inventories.contains_key(j) implies t.inventories[j].owner.0 == j by {
        if j != k {
            assert(s.inventories.contains_key(j));
        }
    }
}

pub proof fn lemma_wf_item_update(s: SimState, k: u64, item: Item)
    requires
        state_wf(s),
        item.id.0 == k,
    ensures
        state_wf(SimState { items: s.items.insert(k, item), ..s }),
{
    let t = SimState { items: s.items.insert(k, item), ..s };
    assert forall|j: u64| #[trigger] t.items.contains_key(j) implies t.items[j].id.0 == j by {
        if j != k {
            assert(s.items.contains_key(j));
        }
    }
}

pub proof fn lemma_wf_combatant_update(s: SimState, k: u64, c: Combatant)
    requires
        state_wf(s),
        c.entity.0 == k,
        combatant_bounded(c),
    ensures
        state_wf(SimState { combatants: s.combatants.insert(k, c), ..s }),
{
    let t = SimState { combatants: s.combatants.insert(k, c), ..s };
    assert forall|j: u64| #[trigger] t.combatants.contains_key(j) implies t.combatants[j].entity.0 == j
        && combatant_bounded(t.combatants[j]) by {
        if j != k {
            assert(s.combatants.contains_key(j));
        }
    }
}

pub proof fn lemma_wf_quest_update(s: SimState, k: u64, q: Quest)
    requires
        state_wf(s),
        q.id.0 == k,
    ensures
        state_wf(SimState { quests: s.quests.insert(k, q), ..s }),
{
    let t = SimState { quests: s.quests.insert(k, q), ..s };
    assert forall|j: u64| #[trigger] t.quests.contains_key(j) implies t.quests[j].id.0 == j by {
        if j != k {
            assert(s.quests.contains_key(j));
        }
    }
}

pub proof fn lemma_wf_container_update(s: SimState, k: u64, c: Container)
    requires
        state_wf(s),
        c.entity.0 == k,
        s.entities.contains_key(k),
    ensures
        state_wf(SimState { containers: s.containers.insert(k, c), ..s }),
{
    let t = SimState { containers: s.containers.insert(k, c), ..s };
    assert forall|j: u64| #[trigger] t.containers.contains_key(j) implies t.containers[j].entity.0 == j
        && t.entities.contains_key(j) by {
        if j != k {
            assert(s.containers.contains_key(j));
        }
    }
}

/// Equipping a carried weapon into its slot.
pub open spec fn equip_result(s: SimState, owner: EntityId, item: ItemId) -> (SimState, Outcome) {
    if !carries(s, owner.0, item.0) || !s.items.contains_key(item.0) {
        refusal(s, ActionFailure::ItemNotCarried)
    } else {
        let inv = s.inventories[owner.0];
        let done = Outcome {
            advanced_time: false,
            changed_world: true,
            events: seq![SimulationEvent::ItemEquipped { owner, item }],
        };
        match s.items[item.0].kind {
            ItemKind::MeleeWeapon { .. } => (
                SimState {
                    inventories: s.inventories.insert(owner.0, Inventory { equipped_melee: Some(item), ..inv }),
                    ..s
                },
                done,
            ),
            ItemKind::RangedWeapon { .. } => (
                SimState {
                    inventories: s.inventories.insert(owner.0, Inventory { equipped_ranged: Some(item), ..inv }),
                    ..s
                },
                done,
            ),
            _ => refusal(s, ActionFailure::ItemCannotBeUsed),
        }
    }
}

/// Health after healing by `amount`: never above the maximum, never below zero.
pub open spec fn healed_health(health: i16, amount: int, max_health: i16) -> i16 {
    if health + amount > max_health {
        max_health
    } else if health + amount < 0 {
        0
    } else {
        (health + amount) as i16
    }
}

/// Using a carried healing consumable on its owner.
pub open spec fn use_item_result(s: SimState, owner: EntityId, item: ItemId) -> (SimState, Outcome) {
    if !carries(s, owner.0, item.0) {
        refusal(s, ActionFailure::ItemNotCarried)
    } else if !s.items.contains_key(item.0) || !(s.items[item.0].kind is Consumable) {
        refusal(s, ActionFailure::ItemCannotBeUsed)
    } else if s.items[item.0].quantity == 0 {
        refusal(s, ActionFailure::ItemCannotBeUsed)
    } else if !s.combatants.contains_key(owner.0) {
        refusal(s, ActionFailure::InvalidTarget)
    } else if s.combatants[owner.0].health >= s.combatants[owner.0].max_health {
        refusal(s, ActionFailure::AlreadyAtFullHealth)
    } else {
        let c = s.combatants[owner.0];
        let it = s.items[item.0];
        let health = healed_health(c.health, it.kind->healing as int, c.max_health);
        let used = one_unit_consumed(it);
        (
            SimState {
                combatants: s.combatants.insert(owner.0, Combatant { health, ..c }),
                items: s.items.insert(item.0, used),
                ..s
            },
            Outcome {
                advanced_time: false,
                changed_world: true,
                events: seq![
                    SimulationEvent::Healed { entity: owner, amount: (health - c.health) as i16, health },
                    SimulationEvent::ItemConsumed { owner, item, remaining: used.quantity },
                ],
            },
        )
    }
}

/// Studying a carried inscribed artifact teaches its formula once.
pub open spec fn study_result(s: SimState, item: ItemId) -> (SimState, Outcome) {
    if !carries(s, s.player.0, item.0) {
        refusal(s, ActionFailure::ItemNotCarried)
    } else if !s.items.contains_key(item.0) || !(s.items[item.0].kind is InscribedArtifact) {
        refusal(s, ActionFailure::ItemCannotBeUsed)
    } else {
        let formula = s.items[item.0].kind->formula;
        if s.known_formulas.contains(formula.0) {
            no_effect(s)
        } else {
            let learned = SimState {
                known_formulas: s.known_formulas.insert(formula.0),
                progression: CharacterProgression {
                    discoveries: s.progression.discoveries.saturating_add(1),
                    arcane_lore: s.progression.arcane_lore.saturating_add(1),
                    ..s.progression
                },
                ..s
            };
            (
                after_experience(learned, 30),
                Outcome {
                    advanced_time: false,
                    changed_world: true,
                    events: seq![SimulationEvent::FormulaLearned { formula, source: item }]
                        + experience_notices(learned, 30),
                },
            )
        }
    }
}

/// Reading a carried book; the first reading of each book is a discovery.
pub open spec fn read_result(s: SimState, item: ItemId) -> (SimState, Outcome) {
    if !carries(s, s.player.0, item.0) {
        refusal(s, ActionFailure::ItemNotCarried)
    } else if !s.items.contains_key(item.0) || !(s.items[item.0].kind is Book) {
        refusal(s, ActionFailure::ItemCannotBeUsed)
    } else {
        let newly_learned = !s.read_items.contains(item.0);
        (
            SimState {
                read_items: s.read_items.insert(item.0),
                progression: if newly_learned {
                    CharacterProgression {
                        discoveries: s.progression.discoveries.saturating_add(1),
                        ..s.progression
                    }
                } else {
                    s.progression
                },
                tick: s.tick.saturating_add(1),
                ..s
            },
            Outcome {
                advanced_time: true,
                changed_world: newly_learned,
                events: seq![
                    SimulationEvent::ItemRead {
                        item,
                        subject: s.items[item.0].kind->subject,
                        newly_learned,
                    },
                ],
            },
        )
    }
}

/// Using up one unit of a carried food or drink after the need was adjusted.
pub open spec fn consume_result(s: SimState, item: ItemId) -> (SimState, Outcome) {
    if s.items[item.0].quantity == 0 {
        refusal(s, ActionFailure::ItemCannotBeUsed)
    } else {
        let used = one_unit_consumed(s.items[item.0]);
        (
            SimState { items: s.items.insert(item.0, used), tick: s.tick.saturating_add(1), ..s },
            Outcome {
                advanced_time: true,
                changed_world: true,
                events: seq![
                    SimulationEvent::ItemConsumed { owner: s.player, item, remaining: used.quantity },
                    SimulationEvent::NeedsChanged { hunger: s.player_needs.hunger, thirst: s.player_needs.thirst },
                ],
            },
        )
    }
}

/// Refusal for an item that cannot be eaten or drunk.
pub open spec fn unusable_refusal(s: SimState, item: ItemId) -> (SimState, Outcome) {
    if s.items.contains_key(item.0) {
        refusal(s, ActionFailure::ItemCannotBeUsed)
    } else {
        refusal(s, ActionFailure::ItemNotCarried)
    }
}

/// Eating carried food lowers hunger by its nourishment.
pub open spec fn eat_result(s: SimState, item: ItemId) -> (SimState, Outcome) {
    match carried_kind(s, item.0) {
        Some(ItemKind::Food { nourishment }) => if s.player_needs.hunger == 0 {
            refusal(s, ActionFailure::AlreadySatisfied)
        } else {
            consume_result(
                SimState {
                    player_needs: PlayerNeeds {
                        hunger: s.player_needs.hunger.saturating_sub(nourishment),
                        ..s.player_needs
                    },
                    ..s
                },
                item,
            )
        },
        _ => unusable_refusal(s, item),
    }
}

/// Drinking a carried drink lowers thirst by its hydration.
pub open spec fn drink_result(s: SimState, item: ItemId) -> (SimState, Outcome) {
    match carried_kind(s, item.0) {
        Some(ItemKind::Drink { hydration }) => if s.player_needs.thirst == 0 {
            refusal(s, ActionFailure::AlreadySatisfied)
        } else {
            consume_result(
                SimState {
                    player_needs: PlayerNeeds {
                        thirst: s.player_needs.thirst.saturating_sub(hydration),
                        ..s.player_needs
                    },
                    ..s
                },
                item,
            )
        },
        _ => unusable_refusal(s, item),
    }
}

/// Looking into an adjacent, unlocked container.
pub open spec fn open_container_result(s: SimState, container: EntityId) -> (SimState, Outcome) {
    if !adjacent(s, s.player.0, container.0) {
        refusal(s, ActionFailure::OutOfRange)
    } else if !s.containers.contains_key(container.0) {
        refusal(s, ActionFailure::NotAContainer)
    } else if s.containers[container.0].locked {
        refusal(s, ActionFailure::ContainerLocked)
    } else {
        (
            s,
            Outcome {
                advanced_time: false,
                changed_world: false,
                events: seq![SimulationEvent::ContainerOpened { container }],
            },
        )
    }
}

/// Unlocking an adjacent locked container with the carried key that fits it.
pub open spec fn unlock_result(s: SimState, container: EntityId, key: ItemId) -> (SimState, Outcome) {
    if !adjacent(s, s.player.0, container.0) {
        refusal(s, ActionFailure::OutOfRange)
    } else if !carries(s, s.player.0, key.0) {
        refusal(s, ActionFailure::ItemNotCarried)
    } else if !s.containers.contains_key(container.0) || !s.containers[container.0].locked
        || s.containers[container.0].lock_code is None {
        refusal(s, ActionFailure::NotAContainer)
    } else if !s.items.contains_key(key.0) || s.items[key.0].kind != (ItemKind::Key {
        lock_code: s.containers[container.0].lock_code.unwrap(),
    }) {
        refusal(s, ActionFailure::WrongKey)
    } else {
        (
            SimState {
                containers: s.containers.insert(
                    container.0,
                    Container { locked: false, ..s.containers[container.0] },
                ),
                tick: s.tick.saturating_add(1),
                ..s
            },
            Outcome {
                advanced_time: true,
                changed_world: true,
                events: seq![SimulationEvent::ContainerUnlocked { container, key }],
            },
        )
    }
}

/// Every twelfth tick hunger grows by one and thirst by two, both capped at one hundred.
pub open spec fn after_needs(s: SimState) -> SimState {
    if s.tick % 12 != 0 {
        s
    } else {
        SimState {
            player_needs: PlayerNeeds {
                hunger: min_u8(s.player_needs.hunger.saturating_add(1), 100),
                thirst: min_u8(s.player_needs.thirst.saturating_add(2), 100),
            },
            ..s
        }
    }
}

pub open spec fn min_u8(a: u8, b: u8) -> u8 {
    if a < b {
        a
    } else {
        b
    }
}

/// The event reporting grown needs.
pub open spec fn needs_notices(s: SimState) -> Seq<SimulationEvent> {
    if s.tick % 12 != 0 {
        Seq::empty()
    } else {
        let n = after_needs(s).player_needs;
        seq![SimulationEvent::NeedsChanged { hunger: n.hunger, thirst: n.thirst }]
    }
}

impl Simulation {
    fn resolve_equip(&mut self, owner: EntityId, item: ItemId) -> (outcome: CommandOutcome)
        requires
            old(self).wf(),
        ensures
            final(self).wf(),
            (final(self)@, outcome_of(outcome)) == equip_result(old(self)@, owner, item),
    {
        let carried = match self.inventories.get(&owner.0) {
            None => false,
            Some(inventory) => inventory.items.contains(&item.0),
        };
        if !carried {
            return failed(ActionFailure::ItemNotCarried);
        }
        let kind = match self.items.get(&item.0) {
            None => {
                return failed(ActionFailure::ItemNotCarried);
            },
            Some(it) => it.kind,
        };
        let melee = match kind {
            ItemKind::MeleeWeapon { .. } => true,
            ItemKind::RangedWeapon { .. } => false,
            _ => {
                return failed(ActionFailure::ItemCannotBeUsed);
            },
        };
        let ghost s0 = self@;
        let mut inventory = match self.inventories.remove(&owner.0) {
            None => {
                return failed(ActionFailure::ItemNotCarried);
            },
            Some(inventory) => inventory,
        };
        if melee {
            inventory.equipped_melee = Some(item);
        } else {
            inventory.equipped_ranged = Some(item);
        }
        proof {
            assert(s0.inventories[owner.0].owner.0 == owner.0);
            lemma_wf_inventory_update(s0, owner.0, inventory);
        }
        self.inventories.insert(owner.0, inventory);
        assert(self@ =~= SimState { inventories: s0.inventories.insert(owner.0, inventory), ..s0 });
        let outcome = CommandOutcome {
            advanced_time: false,
            changed_world: true,
            events: single_event(SimulationEvent::ItemEquipped { owner, item }),
        };
        outcome
    }

    fn resolve_use_item(&mut self, owner: EntityId, item: ItemId) -> (outcome: CommandOutcome)
        requires
            old(self).wf(),
        ensures
            final(self).wf(),
            (final(self)@, outcome_of(outcome)) == use_item_result(old(self)@, owner, item),
    {
        let carried = match self.inventories.get(&owner.0) {
            None => false,
            Some(inventory) => inventory.items.contains(&item.0),
        };
        if !carried {
            return failed(ActionFailure::ItemNotCarried);
        }
        let (healing, quantity) = match self.items.get(&item.0) {
            None => {
                return failed(ActionFailure::ItemCannotBeUsed);
            },
            Some(it) => match it.kind {
                ItemKind::Consumable { healing } => (healing, it.quantity),
                _ => {
                    return failed(ActionFailure::ItemCannotBeUsed);
                },
            },
        };
        if quantity == 0 {
            return failed(ActionFailure::ItemCannotBeUsed);
        }
        let c = match self.combatants.get(&owner.0) {
            None => {
                return failed(ActionFailure::InvalidTarget);
            },
            Some(c) => *c,
        };
        if c.health >= c.max_health {
            return failed(ActionFailure::AlreadyAtFullHealth);
        }
        let ghost s0 = self@;
        let raised: i32 = c.health as i32 + healing as i32;
        let health: i16 = if raised > c.max_health as i32 {
            c.max_health
        } else if raised < 0 {
            0
        } else {
            raised as i16
        };
        let healed = Combatant { health, ..c };
        proof {
            lemma_wf_combatant_update(s0, owner.0, healed);
        }
        self.combatants.insert(owner.0, healed);
        let ghost s1 = self@;
        let mut used = match self.items.remove(&item.0) {
            None => {
                return failed(ActionFailure::ItemCannotBeUsed);
            },
            Some(it) => it,
        };
        consume_one_unit(&mut used);
        let remaining = used.quantity;
        proof {
            lemma_wf_item_update(s1, item.0, used);
        }
        self.items.insert(item.0, used);
        assert(self@ =~= SimState {
            combatants: s0.combatants.insert(owner.0, healed),
            items: s0.items.insert(item.0, used),
            ..s0
        });
        let mut events = Vec::new();
        events.push(SimulationEvent::Healed { entity: owner, amount: health - c.health, health });
        events.push(SimulationEvent::ItemConsumed { owner, item, remaining });
        let outcome = CommandOutcome { advanced_time: false, changed_world: true, events };
        assert(outcome_of(outcome).events =~= use_item_result(s0, owner, item).1.events);
        outcome
    }

    fn resolve_study(&mut self, item: ItemId) -> (outcome: CommandOutcome)
        requires
            old(self).wf(),
        ensures
            final(self).wf(),
            (final(self)@, outcome_of(outcome)) == study_result(old(self)@, item),
    {
        if !self.player_carries(item) {
            return failed(ActionFailure::ItemNotCarried);
        }
        let formula = match self.items.get(&item.0) {
            None => {
                return failed(ActionFailure::ItemCannotBeUsed);
            },
            Some(it) => match it.kind {
                ItemKind::InscribedArtifact { formula, .. } => formula,
                _ => {
                    return failed(ActionFailure::ItemCannotBeUsed);
                },
            },
        };
        if self.known_formulas.contains(&formula.0) {
            return idle();
        }
        self.known_formulas.insert(formula.0);
        self.progression.discoveries = self.progression.discoveries.saturating_add(1);
        self.progression.arcane_lore = self.progression.arcane_lore.saturating_add(1);
        let ghost learned = self@;
        let mut events = single_event(SimulationEvent::FormulaLearned { formula, source: item });
        self.grant_experience(30, &mut events);
        let outcome = CommandOutcome { advanced_time: false, changed_world: true, events };
        assert(learned =~= SimState {
            known_formulas: old(self)@.known_formulas.insert(formula.0),
            progression: CharacterProgression {
                discoveries: old(self)@.progression.discoveries.saturating_add(1),
                arcane_lore: old(self)@.progression.arcane_lore.saturating_add(1),
                ..old(self)@.progression
            },
            ..old(self)@
        });
        outcome
    }

    fn resolve_read(&mut self, item: ItemId) -> (outcome: CommandOutcome)
        requires
            old(self).wf(),
        ensures
            final(self).wf(),
            (final(self)@, outcome_of(outcome)) == read_result(old(self)@, item),
    {
        if !self.player_carries(item) {
            return failed(ActionFailure::ItemNotCarried);
        }
        let subject = match self.items.get(&item.0) {
            None => {
                return failed(ActionFailure::ItemCannotBeUsed);
            },
            Some(it) => match it.kind {
                ItemKind::Book { subject } => subject,
                _ => {
                    return failed(ActionFailure::ItemCannotBeUsed);
                },
            },
        };
        let newly_learned = !self.read_items.contains(&item.0);
        self.read_items.insert(item.0);
        if newly_learned {
            self.progression.discoveries = self.progression.discoveries.saturating_add(1);
        }
        self.tick = self.tick.saturating_add(1);
        assert(self@ =~= read_result(old(self)@, item).0);
        CommandOutcome {
            advanced_time: true,
            changed_world: newly_learned,
            events: single_event(SimulationEvent::ItemRead { item, subject, newly_learned }),
        }
    }

    fn consume_carried_item(&mut self, item: ItemId) -> (outcome: CommandOutcome)
        requires
            old(self).wf(),
            old(self)@.items.contains_key(item.0),
        ensures
            final(self).wf(),
            (final(self)@, outcome_of(outcome)) == consume_result(old(self)@, item),
    {
        let ghost s0 = self@;
        let mut used = match self.items.remove(&item.0) {
            None => {
                return failed(ActionFailure::ItemCannotBeUsed);
            },
            Some(it) => it,
        };
        if used.quantity == 0 {
            self.items.insert(item.0, used);
            assert(self@ =~= s0);
            return failed(ActionFailure::ItemCannotBeUsed);
        }
        consume_one_unit(&mut used);
        let remaining = used.quantity;
        proof {
            lemma_wf_item_update(s0, item.0, used);
        }
        self.items.insert(item.0, used);
        self.tick = self.tick.saturating_add(1);
        assert(self@ =~= consume_result(s0, item).0);
        let mut events = Vec::new();
        events.push(SimulationEvent::ItemConsumed { owner: self.player, item, remaining });
        events.push(
            SimulationEvent::NeedsChanged { hunger: self.player_needs.hunger, thirst: self.player_needs.thirst },
        );
        let outcome = CommandOutcome { advanced_time: true, changed_world: true, events };
        assert(outcome_of(outcome).events =~= consume_result(s0, item).1.events);
        outcome
    }

    fn resolve_eat(&mut self, item: ItemId) -> (outcome: CommandOutcome)
        requires
            old(self).wf(),
        ensures
            final(self).wf(),
            (final(self)@, outcome_of(outcome)) == eat_result(old(self)@, item),
    {
        let nourishment = match self.carried_item_kind(item) {
            Some(ItemKind::Food { nourishment }) => nourishment,
            _ => {
                if self.items.contains_key(&item.0) {
                    return failed(ActionFailure::ItemCannotBeUsed);
                }
                return failed(ActionFailure::ItemNotCarried);
            },
        };
        if self.player_needs.hunger == 0 {
            return failed(ActionFailure::AlreadySatisfied);
        }
        self.player_needs.hunger = self.player_needs.hunger.saturating_sub(nourishment);
        self.consume_carried_item(item)
    }

    fn resolve_drink(&mut self, item: ItemId) -> (outcome: CommandOutcome)
        requires
            old(self).wf(),
        ensures
            final(self).wf(),
            (final(self)@, outcome_of(outcome)) == drink_result(old(self)@, item),
    {
        let hydration = match self.carried_item_kind(item) {
            Some(ItemKind::Drink { hydration }) => hydration,
            _ => {
                if self.items.contains_key(&item.0) {
                    return failed(ActionFailure::ItemCannotBeUsed);
                }
                return failed(ActionFailure::ItemNotCarried);
            },
        };
        if self.player_needs.thirst == 0 {
            return failed(ActionFailure::AlreadySatisfied);
        }
        self.player_needs.thirst = self.player_needs.thirst.saturating_sub(hydration);
        self.consume_carried_item(item)
    }

    fn resolve_open_container(&self, container: EntityId) -> (outcome: CommandOutcome)
        requires
            self.wf(),
        ensures
            (self@, outcome_of(outcome)) == open_container_result(self@, container),
    {
        if !self.entities_are_adjacent(self.player, container) {
            return failed(ActionFailure::OutOfRange);
        }
        let locked = match self.containers.get(&container.0) {
            None => {
                return failed(ActionFailure::NotAContainer);
            },
            Some(c) => c.locked,
        };
        if locked {
            return failed(ActionFailure::ContainerLocked);
        }
        CommandOutcome {
            advanced_time: false,
            changed_world: false,
            events: single_event(SimulationEvent::ContainerOpened { container }),
        }
    }

    fn resolve_unlock_container(&mut self, container: EntityId, key: ItemId) -> (outcome: CommandOutcome)
        requires
            old(self).wf(),
        ensures
            final(self).wf(),
            (final(self)@, outcome_of(outcome)) == unlock_result(old(self)@, container, key),
    {
        if !self.entities_are_adjacent(self.player, container) {
            return failed(ActionFailure::OutOfRange);
        }
        if !self.player_carries(key) {
            return failed(ActionFailure::ItemNotCarried);
        }
        let lock_code = match self.containers.get(&container.0) {
            None => {
                return failed(ActionFailure::NotAContainer);
            },
            Some(c) => {
                if !c.locked {
                    return failed(ActionFailure::NotAContainer);
                }
                match c.lock_code {
                    None => {
                        return failed(ActionFailure::NotAContainer);
                    },
                    Some(code) => code,
                }
            },
        };
        let fits = match self.items.get(&key.0) {
            None => false,
            Some(it) => it.kind == (ItemKind::Key { lock_code }),
        };
        if !fits {
            return failed(ActionFailure::WrongKey);
        }
        let ghost s0 = self@;
        let mut state = match self.containers.remove(&container.0) {
            None => {
                return failed(ActionFailure::NotAContainer);
            },
            Some(c) => c,
        };
        state.locked = false;
        proof {
            assert(s0.containers[container.0].entity.0 == container.0);
            lemma_wf_container_update(s0, container.0, state);
        }
        self.containers.insert(container.0, state);
        self.tick = self.tick.saturating_add(1);
        assert(self@ =~= unlock_result(s0, container, key).0);
        CommandOutcome {
            advanced_time: true,
            changed_world: true,
            events: single_event(SimulationEvent::ContainerUnlocked { container, key }),
        }
    }

    fn advance_player_needs(&mut self, events: &mut Vec<SimulationEvent>)
        requires
            old(self).wf(),
        ensures
            final(self).wf(),
            final(self)@ == after_needs(old(self)@),
            final(events)@ == old(events)@ + needs_notices(old(self)@),
    {
        if self.tick % 12 != 0 {
            assert(events@ =~= old(events)@ + needs_notices(old(self)@));
            return;
        }
        let hunger = self.player_needs.hunger.saturating_add(1);
        let thirst = self.player_needs.thirst.saturating_add(2);
        self.player_needs.hunger = if hunger < 100 {
            hunger
        } else {
            100
        };
        self.player_needs.thirst = if thirst < 100 {
            thirst
        } else {
            100
        };
        events.push(
            SimulationEvent::NeedsChanged { hunger: self.player_needs.hunger, thirst: self.player_needs.thirst },
        );
        assert(self@ =~= after_needs(old(self)@));
        assert(events@ =~= old(events)@ + needs_notices(old(self)@));
    }
}


/// The refusal answering a failed hand-over or taking.
pub open spec fn exchange_refusal(e: GameplayBuildError) -> ActionFailure {
    match e {
        GameplayBuildError::InvalidQuantity { .. } => ActionFailure::InvalidQuantity,
        GameplayBuildError::ItemNotCarried { .. } => ActionFailure::ItemNotCarried,
        _ => ActionFailure::InvalidTarget,
    }
}

/// The refusal answering a failed placement into a container.
pub open spec fn placing_refusal(e: GameplayBuildError) -> ActionFailure {
    match e {
        GameplayBuildError::InvalidQuantity { .. } => ActionFailure::InvalidQuantity,
        GameplayBuildError::ContainerFull(_) => ActionFailure::ContainerFull,
        GameplayBuildError::ItemNotCarried { .. } => ActionFailure::ItemNotCarried,
        _ => ActionFailure::InvalidTarget,
    }
}

/// The player is the legal owner of `item` and it is not marked stolen.
pub open spec fn holds_title(s: SimState, item: u64) -> bool {
    owner_of(s, item) == Some(s.player) && !s.stolen.contains(item)
}

/// The least split identity that is free: at or after the counter, with every
/// identity between the counter and it already taken.
pub open spec fn least_free_split_id(s: SimState) -> u64 {
    choose|c: u64|
        c >= s.next_split_item_id && !s.items.contains_key(c) && forall|d: u64|
            s.next_split_item_id <= d < c ==> #[trigger] s.items.contains_key(d)
}

/// The identity of the stack that an exchange of `quantity` units of `item`
/// moves: the item itself when the whole stack goes, else the least free
/// split identity.
pub open spec fn moved_stack_id(s: SimState, item: ItemId, quantity: u16) -> u64 {
    if quantity == s.items[item.0].quantity {
        item.0
    } else {
        least_free_split_id(s)
    }
}

/// A stack `c` that `to` already carries and that goods of `item`, arriving as
/// stack `moved` with the given title, would merge into: the same name, kind
/// and quality, legal owner and theft mark.
pub open spec fn stack_partner(
    s: SimState,
    to: u64,
    item: u64,
    moved: u64,
    owner: Option<EntityId>,
    stolen: bool,
    c: u64,
) -> bool {
    &&& c != moved
    &&& carries(s, to, c)
    &&& s.items.contains_key(c)
    &&& s.items[c].name@ == s.items[item].name@
    &&& s.items[c].kind == s.items[item].kind
    &&& s.items[c].quality == s.items[item].quality
    &&& owner_of(s, c) == owner
    &&& s.stolen.contains(c) == stolen
}

/// The least stack that arriving goods merge into, if the goods stack at all.
#[verifier::opaque]
pub open spec fn exchange_partner(
    s: SimState,
    to: u64,
    item: u64,
    moved: u64,
    owner: Option<EntityId>,
    stolen: bool,
) -> Option<u64> {
    if is_stackable(s.items[item].kind) && exists|c: u64| #[trigger] stack_partner(s, to, item, moved, owner, stolen, c) {
        Some(
            choose|c: u64|
                stack_partner(s, to, item, moved, owner, stolen, c) && forall|d: u64|
                    #[trigger] stack_partner(s, to, item, moved, owner, stolen, d) ==> c <= d,
        )
    } else {
        None
    }
}

/// The stack that holds exchanged goods afterwards: the smaller identity of the
/// moved stack and its merge partner, or the moved stack when nothing merges.
pub open spec fn exchange_survivor(
    s: SimState,
    to: u64,
    item: u64,
    moved: u64,
    owner: Option<EntityId>,
    stolen: bool,
) -> u64 {
    match exchange_partner(s, to, item, moved, owner, stolen) {
        None => moved,
        Some(c) => if moved < c {
            moved
        } else {
            c
        },
    }
}

/// The weight of the goods an exchange moves.
pub open spec fn moved_weight(s: SimState, item: ItemId, quantity: u16) -> u32 {
    if quantity == s.items[item.0].quantity {
        s.items[item.0].weight_grams
    } else {
        stack_share(s.items[item.0], quantity)
    }
}

/// A split identity with the least-free property is the least free one.
proof fn lemma_least_free_split_id(s: SimState, m: u64)
    requires
        m >= s.next_split_item_id,
        !s.items.contains_key(m),
        forall|d: u64| s.next_split_item_id <= d < m ==> #[trigger] s.items.contains_key(d),
    ensures
        least_free_split_id(s) == m,
{
    let c = least_free_split_id(s);
    assert(c >= s.next_split_item_id && !s.items.contains_key(c));
    if c < m {
        assert(s.items.contains_key(c));
    }
    if m < c {
        assert(s.items.contains_key(m));
    }
}

/// When some stack is a merge partner, a least one exists.
proof fn lemma_least_partner(s: SimState, to: u64, item: u64, moved: u64, owner: Option<EntityId>, stolen: bool, c: u64)
    requires
        stack_partner(s, to, item, moved, owner, stolen, c),
    ensures
        exists|m: u64|
            stack_partner(s, to, item, moved, owner, stolen, m) && forall|d: u64|
                #[trigger] stack_partner(s, to, item, moved, owner, stolen, d) ==> m <= d,
    decreases c,
{
    if exists|d: u64| d < c && #[trigger] stack_partner(s, to, item, moved, owner, stolen, d) {
        let d = choose|d: u64| d < c && #[trigger] stack_partner(s, to, item, moved, owner, stolen, d);
        lemma_least_partner(s, to, item, moved, owner, stolen, d);
    } else {
        assert forall|d: u64| #[trigger] stack_partner(s, to, item, moved, owner, stolen, d) implies c <= d by {
            if d < c {
                assert(false);
            }
        }
    }
}

/// What an exchange leaves before its merge agrees with the state before it
/// on every stack but the moved one, so the merge partner it finds is the
/// least partner of the goods in the earlier state.
#[verifier::spinoff_prover]
#[verifier::rlimit(40)]
proof fn lemma_merge_partner(a: SimState, owned: SimState, to: u64, item: u64, moved: u64)
    requires
        a.items.contains_key(item),
        owned.items.contains_key(moved),
        carries(owned, to, moved),
        owned.items[moved].name@ == a.items[item].name@,
        owned.items[moved].kind == a.items[item].kind,
        owned.items[moved].quality == a.items[item].quality,
        forall|c: u64|
            c != moved ==> #[trigger] carries(owned, to, c) == carries(a, to, c) && owned.items.contains_key(c)
                == a.items.contains_key(c) && owner_of(owned, c) == owner_of(a, c) && owned.stolen.contains(c)
                == a.stolen.contains(c),
        forall|c: u64|
            c != moved && #[trigger] a.items.contains_key(c) ==> owned.items[c].name@ == a.items[c].name@
                && owned.items[c].kind == a.items[c].kind && owned.items[c].quality == a.items[c].quality,
    ensures
        ({
            let owner = owner_of(owned, moved);
            let stolen = owned.stolen.contains(moved);
            let p = exchange_partner(a, to, item, moved, owner, stolen);
            &&& (mergeable(owned, to, moved) && smallest_compatible(owned, to, moved) is Some) == p is Some
            &&& p is Some ==> smallest_compatible(owned, to, moved) == p && stack_partner(
                a,
                to,
                item,
                moved,
                owner,
                stolen,
                p.unwrap(),
            )
        }),
{
    let owner = owner_of(owned, moved);
    let stolen = owned.stolen.contains(moved);
    reveal(compatible_stack);
    reveal(exchange_partner);
    assert forall|c: u64|
        compatible_stack(owned, to, moved, c) <==> (is_stackable(a.items[item].kind) && #[trigger] stack_partner(
            a,
            to,
            item,
            moved,
            owner,
            stolen,
            c,
        )) by {
        if c != moved {
            assert(carries(owned, to, c) == carries(a, to, c));
            if a.items.contains_key(c) {
                assert(owned.items[c].name@ == a.items[c].name@);
            }
        }
    }
    if mergeable(owned, to, moved) && exists|c: u64| compatible_stack(owned, to, moved, c) {
        let c0 = choose|c: u64| compatible_stack(owned, to, moved, c);
        assert(stack_partner(a, to, item, moved, owner, stolen, c0));
        lemma_least_partner(a, to, item, moved, owner, stolen, c0);
        let m = choose|m: u64|
            stack_partner(a, to, item, moved, owner, stolen, m) && forall|d: u64|
                #[trigger] stack_partner(a, to, item, moved, owner, stolen, d) ==> m <= d;
        assert(compatible_stack(owned, to, moved, m));
        assert forall|d: u64| compatible_stack(owned, to, moved, d) implies m <= d by {
            assert(stack_partner(a, to, item, moved, owner, stolen, d));
        }
        let other = smallest_compatible(owned, to, moved).unwrap();
        assert(compatible_stack(owned, to, moved, other));
        assert(stack_partner(a, to, item, moved, owner, stolen, other));
        let p = exchange_partner(a, to, item, moved, owner, stolen).unwrap();
        assert(stack_partner(a, to, item, moved, owner, stolen, p));
        assert(other <= m && m <= other);
        assert(p <= m && m <= p);
    } else {
        if exchange_partner(a, to, item, moved, owner, stolen) is Some {
            let c1 = choose|c: u64| #[trigger] stack_partner(a, to, item, moved, owner, stolen, c);
            assert(compatible_stack(owned, to, moved, c1));
        }
    }
}

/// The merge that ends an exchange keeps the stack that `exchange_survivor`
/// names, with the title of the moved goods and the summed quantity.
#[verifier::spinoff_prover]
#[verifier::rlimit(40)]
proof fn lemma_exchange_merge(
    a: SimState,
    owned: SimState,
    b: SimState,
    to: u64,
    item: u64,
    moved: u64,
    survivor: u64,
)
    requires
        a.items.contains_key(item),
        owned.items.contains_key(moved),
        carries(owned, to, moved),
        owned.items[moved].name@ == a.items[item].name@,
        owned.items[moved].kind == a.items[item].kind,
        owned.items[moved].quality == a.items[item].quality,
        forall|c: u64|
            c != moved ==> #[trigger] carries(owned, to, c) == carries(a, to, c) && owned.items.contains_key(c)
                == a.items.contains_key(c) && owner_of(owned, c) == owner_of(a, c) && owned.stolen.contains(c)
                == a.stolen.contains(c),
        forall|c: u64|
            c != moved && #[trigger] a.items.contains_key(c) ==> owned.items[c].name@ == a.items[c].name@
                && owned.items[c].kind == a.items[c].kind && owned.items[c].quality == a.items[c].quality,
        !mergeable(owned, to, moved) || smallest_compatible(owned, to, moved) is None ==> survivor == moved && b
            == owned,
        mergeable(owned, to, moved) && smallest_compatible(owned, to, moved) is Some ==> {
            let other = smallest_compatible(owned, to, moved).unwrap();
            let kept = if moved < other { moved } else { other };
            let gone = if moved < other { other } else { moved };
            &&& survivor == kept
            &&& b.items == owned.items.remove(gone).insert(
                kept,
                Item {
                    quantity: owned.items[kept].quantity.saturating_add(owned.items[gone].quantity),
                    weight_grams: owned.items[kept].weight_grams.saturating_add(owned.items[gone].weight_grams),
                    ..owned.items[kept]
                },
            )
            &&& b.legal_owners == owned.legal_owners.remove(gone)
            &&& b.stolen == owned.stolen.remove(gone)
        },
    ensures
        ({
            let owner = owner_of(owned, moved);
            let stolen = owned.stolen.contains(moved);
            &&& survivor == exchange_survivor(a, to, item, moved, owner, stolen)
            &&& owner_of(b, survivor) == owner
            &&& b.stolen.contains(survivor) == stolen
            &&& b.items.contains_key(survivor)
            &&& b.items[survivor].quantity == match exchange_partner(a, to, item, moved, owner, stolen) {
                None => owned.items[moved].quantity,
                Some(c) => if moved < c {
                    owned.items[moved].quantity.saturating_add(owned.items[c].quantity)
                } else {
                    owned.items[c].quantity.saturating_add(owned.items[moved].quantity)
                },
            }
            &&& b.items[survivor].weight_grams == match exchange_partner(a, to, item, moved, owner, stolen) {
                None => owned.items[moved].weight_grams,
                Some(c) => if moved < c {
                    owned.items[moved].weight_grams.saturating_add(owned.items[c].weight_grams)
                } else {
                    owned.items[c].weight_grams.saturating_add(owned.items[moved].weight_grams)
                },
            }
        }),
{
    lemma_merge_partner(a, owned, to, item, moved);
    let owner = owner_of(owned, moved);
    let stolen = owned.stolen.contains(moved);
    match exchange_partner(a, to, item, moved, owner, stolen) {
        None => {},
        Some(c) => {
            assert(stack_partner(a, to, item, moved, owner, stolen, c));
            assert(carries(owned, to, c) == carries(a, to, c));
            assert(owner_of(owned, c) == owner_of(a, c));
            assert(owned.stolen.contains(c) == a.stolen.contains(c));
            assert(owned.items.contains_key(c));
        },
    }
}

/// What an exchange settles beyond its event: which stack holds the goods
/// (the moved stack, or the smaller of it and the stack it merged into), that
/// stack's quantity and weight, and what the giver keeps.
#[verifier::opaque]
pub open spec fn exchange_detail(
    a: SimState,
    b: SimState,
    item: ItemId,
    from: EntityId,
    to: EntityId,
    quantity: u16,
    survivor: u64,
) -> bool {
    let moved = moved_stack_id(a, item, quantity);
    let owner = owner_of(b, survivor);
    let stolen = b.stolen.contains(survivor);
    let source = a.items[item.0];
    &&& survivor == exchange_survivor(a, to.0, item.0, moved, owner, stolen)
    &&& !carries(a, to.0, item.0) ==> b.items[survivor].quantity == match exchange_partner(
        a,
        to.0,
        item.0,
        moved,
        owner,
        stolen,
    ) {
        None => quantity,
        Some(c) => if moved < c {
            quantity.saturating_add(a.items[c].quantity)
        } else {
            a.items[c].quantity.saturating_add(quantity)
        },
    } && b.items[survivor].weight_grams == match exchange_partner(a, to.0, item.0, moved, owner, stolen) {
        None => moved_weight(a, item, quantity),
        Some(c) => if moved < c {
            moved_weight(a, item, quantity).saturating_add(a.items[c].weight_grams)
        } else {
            a.items[c].weight_grams.saturating_add(moved_weight(a, item, quantity))
        },
    }
    &&& from != to && quantity == source.quantity ==> !carries(b, from.0, item.0)
    &&& from != to && quantity < source.quantity && !carries(a, to.0, item.0) ==> carries(b, from.0, item.0)
        && b.items[item.0] == (Item {
        quantity: (source.quantity - quantity) as u16,
        weight_grams: (source.weight_grams - stack_share(source, quantity)) as u32,
        ..source
    })
}

/// The pieces of an exchange, the transfer, the title and the merge, settle
/// what `exchange_detail` says.
#[verifier::spinoff_prover]
#[verifier::rlimit(40)]
proof fn lemma_exchange_detail(
    a: SimState,
    t: SimState,
    owned: SimState,
    b: SimState,
    item: ItemId,
    from: EntityId,
    to: EntityId,
    quantity: u16,
    moved: u64,
    survivor: u64,
)
    requires
        state_wf(a),
        a.items.contains_key(item.0),
        carries(a, from.0, item.0),
        quantity == a.items[item.0].quantity ==> moved == item.0 && custody_moved(a, t, item.0, from.0, to.0),
        quantity < a.items[item.0].quantity ==> {
            &&& !a.items.contains_key(moved)
            &&& moved >= a.next_split_item_id
            &&& forall|c: u64| a.next_split_item_id <= c < moved ==> #[trigger] a.items.contains_key(c)
            &&& t.items == a.items.insert(
                item.0,
                Item {
                    quantity: (a.items[item.0].quantity - quantity) as u16,
                    weight_grams: (a.items[item.0].weight_grams - stack_share(a.items[item.0], quantity)) as u32,
                    ..a.items[item.0]
                },
            ).insert(moved, Item { id: ItemId(moved), quantity, weight_grams: stack_share(a.items[item.0], quantity), ..a.items[item.0] })
            &&& t.legal_owners == if a.legal_owners.contains_key(item.0) {
                a.legal_owners.insert(moved, a.legal_owners[item.0])
            } else {
                a.legal_owners
            }
            &&& t.stolen == if a.stolen.contains(item.0) {
                a.stolen.insert(moved)
            } else {
                a.stolen
            }
            &&& inventory_gained(a.inventories, t.inventories, to.0, moved)
        },
        0 < quantity <= a.items[item.0].quantity,
        title_kept_others(t, owned, moved),
        !mergeable(owned, to.0, moved) || smallest_compatible(owned, to.0, moved) is None ==> survivor == moved && b
            == owned,
        mergeable(owned, to.0, moved) && smallest_compatible(owned, to.0, moved) is Some ==> {
            let other = smallest_compatible(owned, to.0, moved).unwrap();
            let kept = if moved < other { moved } else { other };
            let gone = if moved < other { other } else { moved };
            &&& survivor == kept
            &&& b.items == owned.items.remove(gone).insert(
                kept,
                Item {
                    quantity: owned.items[kept].quantity.saturating_add(owned.items[gone].quantity),
                    weight_grams: owned.items[kept].weight_grams.saturating_add(owned.items[gone].weight_grams),
                    ..owned.items[kept]
                },
            )
            &&& b.inventories.dom() == owned.inventories.dom()
            &&& forall|k: u64| k != to.0 && #[trigger] owned.inventories.contains_key(k) ==> b.inventories[k]
                == owned.inventories[k]
            &&& b.legal_owners == owned.legal_owners.remove(gone)
            &&& b.stolen == owned.stolen.remove(gone)
        },
    ensures
        exchange_detail(a, b, item, from, to, quantity, survivor),
{
    reveal(exchange_detail);
    if quantity < a.items[item.0].quantity {
        lemma_least_free_split_id(a, moved);
    }
    lemma_title_keeps(a, t, owned, item, from, to, quantity, moved);
    lemma_exchange_merge(a, owned, b, to.0, item.0, moved, survivor);
    lemma_merge_partner(a, owned, to.0, item.0, moved);
    lemma_exchange_sides(a, owned, b, item, from, to, quantity, moved, survivor);
}

/// Steps after the merge that leave items, title and the giver's custody of
/// the source alone keep what `exchange_detail` says.
proof fn lemma_exchange_detail_kept(
    a: SimState,
    b: SimState,
    b2: SimState,
    item: ItemId,
    from: EntityId,
    to: EntityId,
    quantity: u16,
    survivor: u64,
)
    requires
        exchange_detail(a, b, item, from, to, quantity, survivor),
        b2.items == b.items,
        b2.legal_owners == b.legal_owners,
        b2.stolen == b.stolen,
        carries(b2, from.0, item.0) == carries(b, from.0, item.0),
    ensures
        exchange_detail(a, b2, item, from, to, quantity, survivor),
{
    reveal(exchange_detail);
}

/// A completed exchange: one transfer event naming the stack that now holds
/// the goods, which `to` carries, and one tick passed.
pub open spec fn exchanged(
    a: SimState,
    b: SimState,
    o: CommandOutcome,
    item: ItemId,
    from: EntityId,
    to: EntityId,
    quantity: u16,
) -> bool {
    let survivor = moved_item(o.events@[0]);
    &&& o.advanced_time
    &&& o.changed_world
    &&& o.events@.len() == 1
    &&& o.events@[0] == (SimulationEvent::ItemQuantityTransferred { source: item, item: survivor, quantity, from, to })
    &&& carries(b, to.0, survivor.0)
    &&& b.items.contains_key(survivor.0)
    &&& b.tick == a.tick.saturating_add(1)
    &&& exchange_detail(a, b, item, from, to, quantity, survivor.0)
}

/// The sides of an exchange after its merge: the giver's stack, and the
/// quantity and weight of the stack that holds the goods.
#[verifier::spinoff_prover]
#[verifier::rlimit(40)]
proof fn lemma_exchange_sides(
    a: SimState,
    owned: SimState,
    b: SimState,
    item: ItemId,
    from: EntityId,
    to: EntityId,
    quantity: u16,
    moved: u64,
    survivor: u64,
)
    requires
        a.items.contains_key(item.0),
        owned.items.contains_key(moved),
        owned.items[moved].quantity == quantity,
        owned.items[moved].weight_grams == moved_weight(a, item, quantity),
        forall|c: u64| c != moved && c != item.0 && #[trigger] a.items.contains_key(c) ==> owned.items[c] == a.items[c],
        forall|c: u64| c != moved ==> #[trigger] owned.items.contains_key(c) == a.items.contains_key(c),
        from != to && quantity == a.items[item.0].quantity ==> !carries(owned, from.0, item.0),
        quantity < a.items[item.0].quantity ==> carries(owned, from.0, item.0) && owned.items[item.0] == (Item {
            quantity: (a.items[item.0].quantity - quantity) as u16,
            weight_grams: (a.items[item.0].weight_grams - stack_share(a.items[item.0], quantity)) as u32,
            ..a.items[item.0]
        }),
        quantity < a.items[item.0].quantity ==> moved != item.0,
        !mergeable(owned, to.0, moved) || smallest_compatible(owned, to.0, moved) is None ==> survivor == moved && b
            == owned,
        mergeable(owned, to.0, moved) && smallest_compatible(owned, to.0, moved) is Some ==> {
            let other = smallest_compatible(owned, to.0, moved).unwrap();
            let kept = if moved < other { moved } else { other };
            let gone = if moved < other { other } else { moved };
            &&& survivor == kept
            &&& b.items == owned.items.remove(gone).insert(
                kept,
                Item {
                    quantity: owned.items[kept].quantity.saturating_add(owned.items[gone].quantity),
                    weight_grams: owned.items[kept].weight_grams.saturating_add(owned.items[gone].weight_grams),
                    ..owned.items[kept]
                },
            )
            &&& b.inventories.dom() == owned.inventories.dom()
            &&& forall|k: u64| k != to.0 && #[trigger] owned.inventories.contains_key(k) ==> b.inventories[k]
                == owned.inventories[k]
        },
        ({
            let owner = owner_of(owned, moved);
            let stolen = owned.stolen.contains(moved);
            let p = exchange_partner(a, to.0, item.0, moved, owner, stolen);
            &&& (mergeable(owned, to.0, moved) && smallest_compatible(owned, to.0, moved) is Some) == p is Some
            &&& p is Some ==> smallest_compatible(owned, to.0, moved) == p && carries(a, to.0, p.unwrap())
                && p.unwrap() != moved && a.items.contains_key(p.unwrap())
        }),
    ensures
        ({
            let owner = owner_of(owned, moved);
            let stolen = owned.stolen.contains(moved);
            &&& !carries(a, to.0, item.0) ==> b.items[survivor].quantity == match exchange_partner(
                a,
                to.0,
                item.0,
                moved,
                owner,
                stolen,
            ) {
                None => quantity,
                Some(c) => if moved < c {
                    quantity.saturating_add(a.items[c].quantity)
                } else {
                    a.items[c].quantity.saturating_add(quantity)
                },
            } && b.items[survivor].weight_grams == match exchange_partner(a, to.0, item.0, moved, owner, stolen) {
                None => moved_weight(a, item, quantity),
                Some(c) => if moved < c {
                    moved_weight(a, item, quantity).saturating_add(a.items[c].weight_grams)
                } else {
                    a.items[c].weight_grams.saturating_add(moved_weight(a, item, quantity))
                },
            }
        }),
        from != to && quantity == a.items[item.0].quantity ==> !carries(b, from.0, item.0),
        from != to && quantity < a.items[item.0].quantity && !carries(a, to.0, item.0) ==> carries(b, from.0, item.0)
            && b.items[item.0] == (Item {
            quantity: (a.items[item.0].quantity - quantity) as u16,
            weight_grams: (a.items[item.0].weight_grams - stack_share(a.items[item.0], quantity)) as u32,
            ..a.items[item.0]
        }),
{
    let owner = owner_of(owned, moved);
    let stolen = owned.stolen.contains(moved);
    match exchange_partner(a, to.0, item.0, moved, owner, stolen) {
        None => {},
        Some(c) => {
            if !carries(a, to.0, item.0) {
                assert(c != item.0);
                assert(owned.items[c] == a.items[c]);
            }
            if from != to && owned.inventories.contains_key(from.0) {
                assert(b.inventories[from.0] == owned.inventories[from.0]);
            }
            if quantity < a.items[item.0].quantity && !carries(a, to.0, item.0) {
                assert(c != item.0);
            }
        },
    }
}

/// Settling title on the moved stack changes the title of nothing else.
pub open spec fn title_kept_others(t: SimState, owned: SimState, moved: u64) -> bool {
    &&& owned == (SimState { legal_owners: owned.legal_owners, stolen: owned.stolen, ..t })
    &&& forall|c: u64| c != moved ==> #[trigger] owner_of(owned, c) == owner_of(t, c)
    &&& forall|c: u64| c != moved ==> #[trigger] owned.stolen.contains(c) == t.stolen.contains(c)
}

/// What the merge of an exchange may rely on: the state before it agrees with
/// the state before the exchange on every stack but the moved one.
proof fn lemma_title_keeps(a: SimState, t: SimState, owned: SimState, item: ItemId, from: EntityId, to: EntityId, quantity: u16, moved: u64)
    requires
        state_wf(a),
        a.items.contains_key(item.0),
        carries(a, from.0, item.0),
        quantity == a.items[item.0].quantity ==> moved == item.0 && custody_moved(a, t, item.0, from.0, to.0),
        quantity < a.items[item.0].quantity ==> {
            &&& !a.items.contains_key(moved)
            &&& t.items == a.items.insert(
                item.0,
                Item {
                    quantity: (a.items[item.0].quantity - quantity) as u16,
                    weight_grams: (a.items[item.0].weight_grams - stack_share(a.items[item.0], quantity)) as u32,
                    ..a.items[item.0]
                },
            ).insert(moved, Item { id: ItemId(moved), quantity, weight_grams: stack_share(a.items[item.0], quantity), ..a.items[item.0] })
            &&& t.legal_owners == if a.legal_owners.contains_key(item.0) {
                a.legal_owners.insert(moved, a.legal_owners[item.0])
            } else {
                a.legal_owners
            }
            &&& t.stolen == if a.stolen.contains(item.0) {
                a.stolen.insert(moved)
            } else {
                a.stolen
            }
            &&& inventory_gained(a.inventories, t.inventories, to.0, moved)
        },
        quantity <= a.items[item.0].quantity,
        title_kept_others(t, owned, moved),
    ensures
        owned.items.contains_key(moved),
        carries(owned, to.0, moved),
        owned.items[moved].name@ == a.items[item.0].name@,
        owned.items[moved].kind == a.items[item.0].kind,
        owned.items[moved].quality == a.items[item.0].quality,
        owned.items[moved].quantity == quantity,
        owned.items[moved].weight_grams == moved_weight(a, item, quantity),
        forall|c: u64|
            c != moved ==> #[trigger] carries(owned, to.0, c) == carries(a, to.0, c) && owned.items.contains_key(c)
                == a.items.contains_key(c) && owner_of(owned, c) == owner_of(a, c) && owned.stolen.contains(c)
                == a.stolen.contains(c),
        forall|c: u64|
            c != moved && #[trigger] a.items.contains_key(c) ==> owned.items[c].name@ == a.items[c].name@
                && owned.items[c].kind == a.items[c].kind && owned.items[c].quality == a.items[c].quality,
        forall|c: u64| c != moved && c != item.0 && #[trigger] a.items.contains_key(c) ==> owned.items[c] == a.items[c],
        forall|c: u64| c != moved ==> #[trigger] owned.items.contains_key(c) == a.items.contains_key(c),
        from != to && quantity == a.items[item.0].quantity ==> !carries(owned, from.0, item.0),
        quantity < a.items[item.0].quantity ==> carries(owned, from.0, item.0) && owned.items[item.0] == (Item {
            quantity: (a.items[item.0].quantity - quantity) as u16,
            weight_grams: (a.items[item.0].weight_grams - stack_share(a.items[item.0], quantity)) as u32,
            ..a.items[item.0]
        }),
        quantity < a.items[item.0].quantity ==> moved != item.0,
{
    lemma_transfer_keeps_others(a, t, item, from, to, quantity, moved);
    assert forall|c: u64| c != moved implies #[trigger] carries(owned, to.0, c) == carries(a, to.0, c)
        && owned.items.contains_key(c) == a.items.contains_key(c) && owner_of(owned, c) == owner_of(a, c)
        && owned.stolen.contains(c) == a.stolen.contains(c) by {
        assert(carries(t, to.0, c) == carries(a, to.0, c) || (to.0 == from.0 && c == item.0));
        assert(owner_of(owned, c) == owner_of(t, c));
        assert(owned.stolen.contains(c) == t.stolen.contains(c));
        assert(t.items.contains_key(c) == a.items.contains_key(c));
        if to.0 == from.0 && c == item.0 {
            if quantity == a.items[item.0].quantity {
                assert(c == moved);
            } else {
                assert(carries(t, to.0, c) == carries(a, to.0, c)) by {
                    assert(t.inventories[to.0].items@ == held_items(a.inventories, to.0).insert(moved));
                }
            }
        }
    }
}

/// The first step of an exchange changes custody, items and title of nothing
/// but the moved stack and, when part of a stack moves, its source.
proof fn lemma_transfer_keeps_others(a: SimState, t: SimState, item: ItemId, from: EntityId, to: EntityId, quantity: u16, moved: u64)
    requires
        state_wf(a),
        a.items.contains_key(item.0),
        carries(a, from.0, item.0),
        quantity == a.items[item.0].quantity ==> moved == item.0 && custody_moved(a, t, item.0, from.0, to.0),
        quantity < a.items[item.0].quantity ==> {
            &&& !a.items.contains_key(moved)
            &&& t.items == a.items.insert(
                item.0,
                Item {
                    quantity: (a.items[item.0].quantity - quantity) as u16,
                    weight_grams: (a.items[item.0].weight_grams - stack_share(a.items[item.0], quantity)) as u32,
                    ..a.items[item.0]
                },
            ).insert(moved, Item { id: ItemId(moved), quantity, weight_grams: stack_share(a.items[item.0], quantity), ..a.items[item.0] })
            &&& t.legal_owners == if a.legal_owners.contains_key(item.0) {
                a.legal_owners.insert(moved, a.legal_owners[item.0])
            } else {
                a.legal_owners
            }
            &&& t.stolen == if a.stolen.contains(item.0) {
                a.stolen.insert(moved)
            } else {
                a.stolen
            }
            &&& inventory_gained(a.inventories, t.inventories, to.0, moved)
        },
        quantity <= a.items[item.0].quantity,
    ensures
        t.items.contains_key(moved),
        carries(t, to.0, moved),
        t.items[moved].name@ == a.items[item.0].name@,
        t.items[moved].kind == a.items[item.0].kind,
        t.items[moved].quality == a.items[item.0].quality,
        t.items[moved].quantity == quantity,
        t.items[moved].weight_grams == moved_weight(a, item, quantity),
        owner_of(t, moved) == owner_of(a, item.0),
        t.stolen.contains(moved) == a.stolen.contains(item.0),
        forall|h: u64, c: u64| c != moved ==> #[trigger] carries(t, h, c) == carries(a, h, c) || (h == from.0 && c
            == item.0),
        forall|c: u64|
            c != moved ==> #[trigger] t.items.contains_key(c) == a.items.contains_key(c) && owner_of(t, c) == owner_of(a, c)
                && t.stolen.contains(c) == a.stolen.contains(c),
        forall|c: u64| c != moved && c != item.0 && #[trigger] a.items.contains_key(c) ==> t.items[c] == a.items[c],
        forall|c: u64|
            c != moved && #[trigger] a.items.contains_key(c) ==> t.items[c].name@ == a.items[c].name@ && t.items[c].kind
                == a.items[c].kind && t.items[c].quality == a.items[c].quality,
        from != to && quantity == a.items[item.0].quantity ==> !carries(t, from.0, item.0),
        quantity < a.items[item.0].quantity ==> carries(t, from.0, item.0) && t.items[item.0] == (Item {
            quantity: (a.items[item.0].quantity - quantity) as u16,
            weight_grams: (a.items[item.0].weight_grams - stack_share(a.items[item.0], quantity)) as u32,
            ..a.items[item.0]
        }),
        forall|h: u64, c: u64| c != moved && c != item.0 ==> #[trigger] carries(t, h, c) == carries(a, h, c),
{
    if quantity == a.items[item.0].quantity {
        let mid = choose|mid: Map<u64, Inventory>|
            inventory_lost(a.inventories, mid, from.0, item.0) && inventory_gained(mid, t.inventories, to.0, item.0);
        assert forall|h: u64, c: u64| c != moved implies #[trigger] carries(t, h, c) == carries(a, h, c) by {
            if h == to.0 {
                assert(held_items(mid, to.0).contains(c) == carries(a, to.0, c));
            } else if a.inventories.contains_key(h) {
                assert(mid.contains_key(h));
            }
        }
    } else {
        assert forall|h: u64, c: u64| c != moved implies #[trigger] carries(t, h, c) == carries(a, h, c) by {
            if h != to.0 && a.inventories.contains_key(h) {
                assert(t.inventories[h] == a.inventories[h]);
            }
        }
    }
}

fn quantity_transfer_item(event: &SimulationEvent) -> (item: ItemId)
    ensures
        item == moved_item(*event),
{
    match event {
        SimulationEvent::ItemQuantityTransferred { item, .. } => *item,
        SimulationEvent::ItemTransferred { item, .. } => *item,
        _ => ItemId(0),
    }
}

fn retarget_quantity_event(event: &mut SimulationEvent, final_item: ItemId)
    ensures
        *final(event) == match *old(event) {
            SimulationEvent::ItemQuantityTransferred { source, item, quantity, from, to } => SimulationEvent::ItemQuantityTransferred {
                source,
                item: final_item,
                quantity,
                from,
                to,
            },
            other => other,
        },
{
    match event {
        SimulationEvent::ItemQuantityTransferred { item, .. } => {
            *item = final_item;
        },
        _ => {},
    }
}

impl Simulation {
    fn holds_title_exec(&self, item: ItemId) -> (holds: bool)
        ensures
            holds == holds_title(self@, item.0),
    {
        match self.legal_owners.get(&item.0) {
            None => false,
            Some(owner) => owner.0 == self.player.0 && !self.stolen_items.contains(&item.0),
        }
    }

    #[verifier::spinoff_prover]
    #[verifier::rlimit(100)]
    fn resolve_give(&mut self, item: ItemId, to: EntityId, quantity: u16) -> (outcome: CommandOutcome)
        requires
            old(self).wf(),
            split_id_available(old(self)@),
        ensures
            final(self).wf(),
            final(self)@.player == old(self)@.player,
            give_settled(old(self)@, item, to, quantity, final(self)@, outcome),
    {
        let player = self.player;
        let ghost s0 = self@;
        if !self.entities_are_adjacent(player, to) {
            return failed(ActionFailure::OutOfRange);
        }
        let holds = self.holds_title_exec(item);
        let mut event = match self.transfer_item_quantity(item, player, to, quantity) {
            Ok(e) => e,
            Err(e) => {
                return failed(
                    match e {
                        GameplayBuildError::InvalidQuantity { .. } => ActionFailure::InvalidQuantity,
                        GameplayBuildError::ItemNotCarried { .. } => ActionFailure::ItemNotCarried,
                        _ => ActionFailure::InvalidTarget,
                    },
                );
            },
        };
        let moved = quantity_transfer_item(&event);
        let ghost t = self@;
        if holds {
            self.transfer_legal_ownership(moved, player, to);
        } else {
            let owned_by_receiver = match self.legal_owners.get(&moved.0) {
                None => false,
                Some(owner) => owner.0 == to.0,
            };
            if owned_by_receiver {
                self.stolen_items.remove(&moved.0);
            }
        }
        let ghost owned = self@;
        proof {
            assert(title_kept_others(t, owned, moved.0));
        }
        let survivor = self.merge_compatible_stack(to, moved);
        proof {
            lemma_exchange_detail(s0, t, owned, self@, item, player, to, quantity, moved.0, survivor.0);
        }
        let ghost merged = self@;
        retarget_quantity_event(&mut event, survivor);
        self.tick = self.tick.saturating_add(1);
        proof {
            lemma_exchange_detail_kept(s0, merged, self@, item, player, to, quantity, survivor.0);
        }
        CommandOutcome { advanced_time: true, changed_world: true, events: single_event(event) }
    }

    #[verifier::spinoff_prover]
    #[verifier::rlimit(100)]
    fn resolve_take(&mut self, item: ItemId, from: EntityId, quantity: u16) -> (outcome: CommandOutcome)
        requires
            old(self).wf(),
            split_id_available(old(self)@),
        ensures
            final(self).wf(),
            final(self)@.player == old(self)@.player,
            take_settled(old(self)@, item, from, quantity, final(self)@, outcome),
    {
        let player = self.player;
        let ghost s0 = self@;
        if !self.entities_are_adjacent(player, from) {
            return failed(ActionFailure::OutOfRange);
        }
        let locked = match self.containers.get(&from.0) {
            None => false,
            Some(c) => c.locked,
        };
        if locked {
            return failed(ActionFailure::ContainerLocked);
        }
        let mut event = match self.transfer_item_quantity(item, from, player, quantity) {
            Ok(e) => e,
            Err(e) => {
                return failed(
                    match e {
                        GameplayBuildError::InvalidQuantity { .. } => ActionFailure::InvalidQuantity,
                        GameplayBuildError::ItemNotCarried { .. } => ActionFailure::ItemNotCarried,
                        _ => ActionFailure::InvalidTarget,
                    },
                );
            },
        };
        let moved = quantity_transfer_item(&event);
        let ghost t = self@;
        let owned_by_player = match self.legal_owners.get(&moved.0) {
            None => false,
            Some(owner) => owner.0 == player.0,
        };
        if !owned_by_player {
            self.stolen_items.insert(moved.0);
        }
        let ghost owned = self@;
        proof {
            assert(title_kept_others(t, owned, moved.0));
        }
        let survivor = self.merge_compatible_stack(player, moved);
        proof {
            lemma_exchange_detail(s0, t, owned, self@, item, from, player, quantity, moved.0, survivor.0);
        }
        let ghost merged = self@;
        retarget_quantity_event(&mut event, survivor);
        let loose = match self.entities.get(&from.0) {
            None => false,
            Some(e) => e.kind == EntityKind::Item,
        };
        let emptied = match self.inventories.get(&from.0) {
            None => true,
            Some(inventory) => inventory.items.is_empty(),
        };
        if loose && !self.containers.contains_key(&from.0) && emptied {
            proof {
                if carries(merged, from.0, item.0) {
                    assert(merged.inventories[from.0].items@.contains(item.0));
                }
            }
            self.remove_entity(from);
        }
        self.tick = self.tick.saturating_add(1);
        proof {
            lemma_exchange_detail_kept(s0, merged, self@, item, from, player, quantity, survivor.0);
        }
        CommandOutcome { advanced_time: true, changed_world: true, events: single_event(event) }
    }

    #[verifier::spinoff_prover]
    #[verifier::rlimit(100)]
    fn resolve_place(&mut self, item: ItemId, container: EntityId, quantity: u16) -> (outcome: CommandOutcome)
        requires
            old(self).wf(),
            split_id_available(old(self)@),
        ensures
            final(self).wf(),
            final(self)@.player == old(self)@.player,
            place_settled(old(self)@, item, container, quantity, final(self)@, outcome),
    {
        let player = self.player;
        let ghost s0 = self@;
        if !self.entities_are_adjacent(player, container) {
            return failed(ActionFailure::OutOfRange);
        }
        let locked = match self.containers.get(&container.0) {
            None => {
                return failed(ActionFailure::NotAContainer);
            },
            Some(c) => c.locked,
        };
        if locked {
            return failed(ActionFailure::ContainerLocked);
        }
        let mut event = match self.transfer_item_quantity(item, player, container, quantity) {
            Ok(e) => e,
            Err(e) => {
                return failed(
                    match e {
                        GameplayBuildError::InvalidQuantity { .. } => ActionFailure::InvalidQuantity,
                        GameplayBuildError::ContainerFull(_) => ActionFailure::ContainerFull,
                        GameplayBuildError::ItemNotCarried { .. } => ActionFailure::ItemNotCarried,
                        _ => ActionFailure::InvalidTarget,
                    },
                );
            },
        };
        let moved = quantity_transfer_item(&event);
        let ghost t = self@;
        let survivor = self.merge_compatible_stack(container, moved);
        proof {
            lemma_exchange_detail(s0, t, t, self@, item, player, container, quantity, moved.0, survivor.0);
        }
        let ghost merged = self@;
        retarget_quantity_event(&mut event, survivor);
        self.tick = self.tick.saturating_add(1);
        proof {
            lemma_exchange_detail_kept(s0, merged, self@, item, player, container, quantity, survivor.0);
        }
        CommandOutcome { advanced_time: true, changed_world: true, events: single_event(event) }
    }
}


/// A completed drop: the goods moved into a fresh loose-item holder standing
/// where the player stands.
pub open spec fn dropped(a: SimState, b: SimState, o: CommandOutcome, item: ItemId, quantity: u16) -> bool {
    let moved = moved_item(o.events@[0]);
    let holder = o.events@[1]->ItemDropped_holder;
    let position = player_position(a);
    &&& o.advanced_time
    &&& o.changed_world
    &&& o.events@.len() == 2
    &&& o.events@[0] == (SimulationEvent::ItemQuantityTransferred {
        source: item,
        item: moved,
        quantity,
        from: a.player,
        to: holder,
    })
    &&& o.events@[1] == (SimulationEvent::ItemDropped { item: moved, holder, position })
    &&& !a.entities.contains_key(holder.0)
    &&& b.entities == a.entities.insert(
        holder.0,
        Entity { id: holder, kind: EntityKind::Item, position, facing: Direction::South },
    )
    &&& carries(b, holder.0, moved.0)
    &&& b.items.contains_key(moved.0)
    &&& owner_of(b, moved.0) == owner_of(a, item.0)
    &&& b.stolen.contains(moved.0) == a.stolen.contains(item.0)
    &&& b.tick == a.tick.saturating_add(1)
}

impl Simulation {
    fn allocate_loose_holder(&mut self) -> (holder: EntityId)
        requires
            old(self).wf(),
            loose_entity_available(old(self)@),
        ensures
            final(self).wf(),
            !old(self)@.entities.contains_key(holder.0),
            holder.0 >= old(self)@.next_loose_item_entity,
            final(self)@ == (SimState { next_loose_item_entity: holder.0.saturating_add(1), ..old(self)@ }),
    {
        let ghost w = choose|c: u64| c >= old(self)@.next_loose_item_entity && !old(self)@.entities.contains_key(c);
        let start = self.next_loose_item_entity;
        let mut candidate = start;
        while self.entities.contains_key(&candidate)
            invariant
                self@ == old(self)@,
                start == old(self)@.next_loose_item_entity,
                start <= candidate <= w,
                !old(self)@.entities.contains_key(w),
            decreases w - candidate,
        {
            candidate = candidate + 1;
        }
        self.next_loose_item_entity = candidate.saturating_add(1);
        EntityId(candidate)
    }

    fn resolve_drop(&mut self, item: ItemId, quantity: u16) -> (outcome: CommandOutcome)
        requires
            old(self).wf(),
            split_id_available(old(self)@),
            loose_entity_available(old(self)@),
        ensures
            final(self).wf(),
            final(self)@.player == old(self)@.player,
            drop_settled(old(self)@, item, quantity, final(self)@, outcome),
    {
        if !self.player_carries(item) {
            return failed(ActionFailure::ItemNotCarried);
        }
        if quantity == 0 || quantity > self.stack_quantity(item) {
            return failed(ActionFailure::InvalidQuantity);
        }
        let player = self.player;
        let holder = self.allocate_loose_holder();
        let position = match self.entities.get(&player.0) {
            None => {
                return failed(ActionFailure::InvalidTarget);
            },
            Some(e) => e.position,
        };
        let ghost before_insert = self@;
        self.entities.insert(
            holder.0,
            Entity { id: holder, kind: EntityKind::Item, position, facing: Direction::South },
        );
        assert forall|k: u64| #[trigger] self@.containers.contains_key(k) implies self@.entities.contains_key(k) by {
            assert(before_insert.containers.contains_key(k));
        }
        assert forall|k: u64| #[trigger] self@.entities.contains_key(k) implies self@.entities[k].id.0 == k by {
            if k != holder.0 {
                assert(before_insert.entities.contains_key(k));
            }
        }
        assert(!self@.containers.contains_key(holder.0));
        let event = match self.transfer_item_quantity(item, player, holder, quantity) {
            Ok(e) => e,
            Err(_) => {
                self.remove_entity(holder);
                return failed(ActionFailure::InvalidTarget);
            },
        };
        let moved = quantity_transfer_item(&event);
        self.tick = self.tick.saturating_add(1);
        let mut events = single_event(event);
        events.push(SimulationEvent::ItemDropped { item: moved, holder, position });
        CommandOutcome { advanced_time: true, changed_world: true, events }
    }
}


/// Whether the cell at (`x`, `y`) of `map`'s layer `z` stops sight. Missing
/// terrain, and a position outside the coordinate range, stop it too.
pub open spec fn sight_stopped(s: SimState, map: MapId, x: int, y: int, z: i16) -> bool {
    if i32::MIN <= x <= i32::MAX && i32::MIN <= y <= i32::MAX {
        let g = GridPos { x: x as i32, y: y as i32, z };
        !s.maps.contains_key(map.0) || s.maps[map.0].cell_at(g) is None || s.maps[map.0].cell_at(g).unwrap().sight_blocked
    } else {
        true
    }
}

/// Bresenham's walk from (`x`, `y`) to (`ex`, `ey`): every cell strictly
/// between the ends must let sight through. `fuel` bounds the number of steps.
pub open spec fn sight_walk(
    s: SimState,
    map: MapId,
    z: i16,
    x: int,
    y: int,
    ex: int,
    ey: int,
    dx: int,
    dy: int,
    sx: int,
    sy: int,
    err: int,
    fuel: nat,
) -> bool
    decreases fuel,
{
    if x == ex && y == ey {
        true
    } else if fuel == 0 {
        false
    } else {
        let twice = err * 2;
        let err1 = if twice >= dy {
            err + dy
        } else {
            err
        };
        let x1 = if twice >= dy {
            x + sx
        } else {
            x
        };
        let err2 = if twice <= dx {
            err1 + dx
        } else {
            err1
        };
        let y1 = if twice <= dx {
            y + sy
        } else {
            y
        };
        if x1 == ex && y1 == ey {
            true
        } else if sight_stopped(s, map, x1, y1, z) {
            false
        } else {
            sight_walk(s, map, z, x1, y1, ex, ey, dx, dy, sx, sy, err2, (fuel - 1) as nat)
        }
    }
}

/// A clear line between two positions on the same map layer.
pub open spec fn line_clear(s: SimState, start: WorldPosition, end: WorldPosition) -> bool {
    if start.map != end.map || start.grid.z != end.grid.z {
        false
    } else {
        let dx = abs_int(end.grid.x - start.grid.x);
        let dy = -abs_int(end.grid.y - start.grid.y);
        let sx = if start.grid.x < end.grid.x {
            1int
        } else {
            -1int
        };
        let sy = if start.grid.y < end.grid.y {
            1int
        } else {
            -1int
        };
        sight_walk(
            s,
            start.map,
            start.grid.z,
            start.grid.x as int,
            start.grid.y as int,
            end.grid.x as int,
            end.grid.y as int,
            dx,
            dy,
            sx,
            sy,
            dx + dy,
            (dx - dy + 1) as nat,
        )
    }
}

/// Where Bresenham's walk stands after `k` steps from (`x`, `y`), with its
/// running error: the cells a line of sight crosses, in order.
pub open spec fn walk_point(x: int, y: int, dx: int, dy: int, sx: int, sy: int, err: int, k: nat) -> (int, int, int)
    decreases k,
{
    if k == 0 {
        (x, y, err)
    } else {
        let twice = err * 2;
        let err1 = if twice >= dy {
            err + dy
        } else {
            err
        };
        let x1 = if twice >= dy {
            x + sx
        } else {
            x
        };
        let err2 = if twice <= dx {
            err1 + dx
        } else {
            err1
        };
        let y1 = if twice <= dx {
            y + sy
        } else {
            y
        };
        walk_point(x1, y1, dx, dy, sx, sy, err2, (k - 1) as nat)
    }
}

/// The `k`-th cell that the line from `start` to `end` crosses, as (x, y).
pub open spec fn line_cell(start: GridPos, end: GridPos, k: nat) -> (int, int) {
    let dx = abs_int(end.x - start.x);
    let dy = -abs_int(end.y - start.y);
    let sx = if start.x < end.x {
        1int
    } else {
        -1int
    };
    let sy = if start.y < end.y {
        1int
    } else {
        -1int
    };
    let p = walk_point(start.x as int, start.y as int, dx, dy, sx, sy, dx + dy, k);
    (p.0, p.1)
}

/// Every cell the walk crosses before it reaches the far end lets sight
/// through, for as many steps as it takes.
pub proof fn lemma_walk_passes_through(
    s: SimState,
    map: MapId,
    z: i16,
    x: int,
    y: int,
    ex: int,
    ey: int,
    dx: int,
    dy: int,
    sx: int,
    sy: int,
    err: int,
    fuel: nat,
    k: nat,
)
    requires
        sight_walk(s, map, z, x, y, ex, ey, dx, dy, sx, sy, err, fuel),
        x != ex || y != ey,
        1 <= k <= fuel,
        forall|j: nat|
            1 <= j <= k ==> #[trigger] walk_point(x, y, dx, dy, sx, sy, err, j).0 != ex || walk_point(
                x,
                y,
                dx,
                dy,
                sx,
                sy,
                err,
                j,
            ).1 != ey,
    ensures
        !sight_stopped(s, map, walk_point(x, y, dx, dy, sx, sy, err, k).0, walk_point(x, y, dx, dy, sx, sy, err, k).1, z),
    decreases k,
{
    let twice = err * 2;
    let err1 = if twice >= dy {
        err + dy
    } else {
        err
    };
    let x1 = if twice >= dy {
        x + sx
    } else {
        x
    };
    let err2 = if twice <= dx {
        err1 + dx
    } else {
        err1
    };
    let y1 = if twice <= dx {
        y + sy
    } else {
        y
    };
    assert(walk_point(x1, y1, dx, dy, sx, sy, err2, 0) == (x1, y1, err2));
    assert(walk_point(x, y, dx, dy, sx, sy, err, 1) == (x1, y1, err2));
    let one: nat = 1;
    assert(walk_point(x, y, dx, dy, sx, sy, err, one).0 != ex || walk_point(x, y, dx, dy, sx, sy, err, one).1 != ey);
    assert(x1 != ex || y1 != ey);
    if k > 1 {
        assert forall|j: nat| 1 <= j <= (k - 1) as nat implies #[trigger] walk_point(x1, y1, dx, dy, sx, sy, err2, j).0 != ex
            || walk_point(x1, y1, dx, dy, sx, sy, err2, j).1 != ey by {
            assert(walk_point(x, y, dx, dy, sx, sy, err, j + 1) == walk_point(x1, y1, dx, dy, sx, sy, err2, j));
        }
        lemma_walk_passes_through(s, map, z, x1, y1, ex, ey, dx, dy, sx, sy, err2, (fuel - 1) as nat, (k - 1) as nat);
        assert(walk_point(x, y, dx, dy, sx, sy, err, k) == walk_point(x1, y1, dx, dy, sx, sy, err2, (k - 1) as nat));
    }
}

/// Both sides of a fight are living combatants standing somewhere.
pub open spec fn combat_ready(s: SimState, attacker: u64, target: u64) -> bool {
    &&& s.combatants.contains_key(attacker)
    &&& s.combatants.contains_key(target)
    &&& s.combatants[attacker].health > 0
    &&& s.combatants[target].health > 0
    &&& s.entities.contains_key(attacker)
    &&& s.entities.contains_key(target)
}

/// A usable unit of ammunition of `kind` carried by `owner`.
pub open spec fn is_ammunition_for(s: SimState, owner: u64, kind: AmmunitionKind, item: u64) -> bool {
    &&& carries(s, owner, item)
    &&& s.items.contains_key(item)
    &&& s.items[item].quantity > 0
    &&& s.items[item].kind == (ItemKind::Ammunition { kind })
}

/// The lowest-numbered usable ammunition of `kind` that `owner` carries.
pub open spec fn first_ammunition(s: SimState, owner: u64, kind: AmmunitionKind) -> Option<u64> {
    if exists|i: u64| is_ammunition_for(s, owner, kind, i) {
        Some(
            choose|i: u64|
                is_ammunition_for(s, owner, kind, i) && forall|j: u64|
                    is_ammunition_for(s, owner, kind, j) ==> i <= j,
        )
    } else {
        None
    }
}

/// The equipped ranged weapon of `owner`, if it names an existing item.
pub open spec fn equipped_ranged_of(s: SimState, owner: u64) -> Option<Item> {
    if s.inventories.contains_key(owner) && s.inventories[owner].equipped_ranged is Some
        && s.items.contains_key(s.inventories[owner].equipped_ranged.unwrap().0) {
        Some(s.items[s.inventories[owner].equipped_ranged.unwrap().0])
    } else {
        None
    }
}

/// The plan of a ranged attack: the weapon's damage and the ammunition used,
/// or the reason the shot cannot be taken, checked in this order.
pub open spec fn ranged_plan(s: SimState, attacker: EntityId, target: EntityId) -> Result<(i16, ItemId), ActionFailure> {
    if !combat_ready(s, attacker.0, target.0) {
        Err(ActionFailure::InvalidTarget)
    } else {
        match equipped_ranged_of(s, attacker.0) {
            None => Err(ActionFailure::NoWeapon),
            Some(weapon) => match weapon.kind {
                ItemKind::RangedWeapon { damage, range, ammunition } => {
                    let a = s.entities[attacker.0].position;
                    let t = s.entities[target.0].position;
                    if a.map != t.map || a.grid.z != t.grid.z || chebyshev_distance(a.grid, t.grid) > range {
                        Err(ActionFailure::OutOfRange)
                    } else if !line_clear(s, a, t) {
                        Err(ActionFailure::LineBlocked)
                    } else {
                        match first_ammunition(s, attacker.0, ammunition) {
                            Some(i) => Ok((damage, ItemId(i))),
                            None => Err(ActionFailure::NoAmmunition),
                        }
                    }
                },
                _ => Err(ActionFailure::NoWeapon),
            },
        }
    }
}

impl Simulation {
    /// Whether nothing blocks sight between two positions on one map layer.
    pub fn clear_line(&self, start: WorldPosition, end: WorldPosition) -> (clear: bool)
        ensures
            clear == line_clear(self@, start, end),
    {
        if start.map != end.map || start.grid.z != end.grid.z {
            return false;
        }
        let ex = end.grid.x as i64;
        let ey = end.grid.y as i64;
        let mut x = start.grid.x as i64;
        let mut y = start.grid.y as i64;
        let dx = abs_i64(ex - x);
        let dy = -abs_i64(ey - y);
        let sx: i64 = if x < ex {
            1
        } else {
            -1
        };
        let sy: i64 = if y < ey {
            1
        } else {
            -1
        };
        let mut err = dx + dy;
        let total = (dx - dy + 1) as u64;
        let mut fuel: u64 = total;
        let z = start.grid.z;
        while !(x == ex && y == ey) && fuel > 0
            invariant
                sight_walk(self@, start.map, z, x as int, y as int, ex as int, ey as int, dx as int, dy as int,
                    sx as int, sy as int, err as int, fuel as nat) == line_clear(self@, start, end),
                0 <= dx <= 0x1_0000_0000,
                -0x1_0000_0000 <= dy <= 0,
                sx == 1 || sx == -1,
                sy == 1 || sy == -1,
                2 * dy <= err <= 2 * dx,
                fuel <= total,
                total == dx - dy + 1,
                start.grid.x - (total - fuel) <= x <= start.grid.x + (total - fuel),
                start.grid.y - (total - fuel) <= y <= start.grid.y + (total - fuel),
                ex == end.grid.x,
                ey == end.grid.y,
                start.map == end.map,
                z == start.grid.z,
            decreases fuel,
        {
            let twice = err * 2;
            let mut next_err = err;
            if twice >= dy {
                next_err = next_err + dy;
                x = x + sx;
            }
            if twice <= dx {
                next_err = next_err + dx;
                y = y + sy;
            }
            err = next_err;
            fuel = fuel - 1;
            if x == ex && y == ey {
                return true;
            }
            let inside = i32::MIN as i64 <= x && x <= i32::MAX as i64 && i32::MIN as i64 <= y && y <= i32::MAX as i64;
            if !inside {
                return false;
            }
            let current = GridPos { x: x as i32, y: y as i32, z };
            let see_through = match self.maps.get(&start.map.0) {
                None => false,
                Some(map) => match map.cell(current) {
                    None => false,
                    Some(cell) => !cell.sight_blocked,
                },
            };
            if !see_through {
                return false;
            }
        }
        x == ex && y == ey
    }

    fn combat_positions(&self, attacker: EntityId, target: EntityId) -> (positions: Option<(WorldPosition, WorldPosition)>)
        ensures
            positions == if combat_ready(self@, attacker.0, target.0) {
                Some((self@.entities[attacker.0].position, self@.entities[target.0].position))
            } else {
                None
            },
    {
        let a = match self.combatants.get(&attacker.0) {
            None => {
                return None;
            },
            Some(c) => *c,
        };
        let t = match self.combatants.get(&target.0) {
            None => {
                return None;
            },
            Some(c) => *c,
        };
        if !a.is_alive() || !t.is_alive() {
            return None;
        }
        let ap = match self.entities.get(&attacker.0) {
            None => {
                return None;
            },
            Some(e) => e.position,
        };
        let tp = match self.entities.get(&target.0) {
            None => {
                return None;
            },
            Some(e) => e.position,
        };
        Some((ap, tp))
    }

    #[verifier::spinoff_prover]
    #[verifier::rlimit(40)]
    fn find_ammunition(&self, owner: EntityId, kind: AmmunitionKind) -> (found: Option<ItemId>)
        ensures
            found == match first_ammunition(self@, owner.0, kind) {
                Some(i) => Some(ItemId(i)),
                None => None::<ItemId>,
            },
            found is Some ==> is_ammunition_for(self@, owner.0, kind, found.unwrap().0),
    {
        let inventory = match self.inventories.get(&owner.0) {
            None => {
                proof {
                    assert forall|i: u64| !is_ammunition_for(self@, owner.0, kind, i) by {}
                }
                return None;
            },
            Some(inventory) => inventory,
        };
        let members = set_members(&inventory.items);
        let mut i: usize = 0;
        while i < members.len()
            invariant
                i <= members@.len(),
                members@.to_set() == self@.inventories[owner.0].items@,
                strictly_increasing(members@),
                self@.inventories.contains_key(owner.0),
                forall|j: int| 0 <= j < i ==> !is_ammunition_for(self@, owner.0, kind, #[trigger] members@[j]),
            decreases members@.len() - i,
        {
            let id = members[i];
            let usable = match self.items.get(&id) {
                None => false,
                Some(it) => it.quantity > 0 && it.kind == (ItemKind::Ammunition { kind }),
            };
            if usable {
                proof {
                    assert(members@.to_set().contains(id));
                    assert(is_ammunition_for(self@, owner.0, kind, id));
                    assert forall|j: u64| is_ammunition_for(self@, owner.0, kind, j) implies id <= j by {
                        assert(members@.to_set().contains(j));
                        let jj = choose|jj: int| 0 <= jj < members@.len() && members@[jj] == j;
                        if jj < i {
                            assert(!is_ammunition_for(self@, owner.0, kind, members@[jj]));
                        } else if jj > i {
                            assert(members@[i as int] < members@[jj]);
                        }
                    }
                    let c = choose|c: u64|
                        is_ammunition_for(self@, owner.0, kind, c) && forall|j: u64|
                            is_ammunition_for(self@, owner.0, kind, j) ==> c <= j;
                    assert(c <= id && id <= c);
                }
                return Some(ItemId(id));
            }
            i = i + 1;
        }
        proof {
            assert forall|j: u64| !is_ammunition_for(self@, owner.0, kind, j) by {
                if is_ammunition_for(self@, owner.0, kind, j) {
                    assert(members@.to_set().contains(j));
                    let jj = choose|jj: int| 0 <= jj < members@.len() && members@[jj] == j;
                    assert(!is_ammunition_for(self@, owner.0, kind, members@[jj]));
                }
            }
        }
        None
    }

    fn ranged_attack_plan(&self, attacker: EntityId, target: EntityId) -> (plan: Result<(i16, ItemId), ActionFailure>)
        ensures
            plan == ranged_plan(self@, attacker, target),
            plan is Ok ==> self@.items.contains_key(plan->Ok_0.1.0) && self@.items[plan->Ok_0.1.0].quantity > 0,
    {
        let (a, t) = match self.combat_positions(attacker, target) {
            None => {
                return Err(ActionFailure::InvalidTarget);
            },
            Some(p) => p,
        };
        let weapon_id = match self.inventories.get(&attacker.0) {
            None => {
                return Err(ActionFailure::NoWeapon);
            },
            Some(inventory) => match inventory.equipped_ranged {
                None => {
                    return Err(ActionFailure::NoWeapon);
                },
                Some(w) => w,
            },
        };
        let kind = match self.items.get(&weapon_id.0) {
            None => {
                return Err(ActionFailure::NoWeapon);
            },
            Some(it) => it.kind,
        };
        let (damage, range, ammunition) = match kind {
            ItemKind::RangedWeapon { damage, range, ammunition } => (damage, range, ammunition),
            _ => {
                return Err(ActionFailure::NoWeapon);
            },
        };
        if a.map != t.map || a.grid.z != t.grid.z || !chebyshev_within(a.grid, t.grid, range as i64) {
            return Err(ActionFailure::OutOfRange);
        }
        if !self.clear_line(a, t) {
            return Err(ActionFailure::LineBlocked);
        }
        match self.find_ammunition(attacker, ammunition) {
            Some(item) => Ok((damage, item)),
            None => Err(ActionFailure::NoAmmunition),
        }
    }

    /// The range of the ranged weapon `owner` has equipped, if any.
    pub fn equipped_ranged_range(&self, owner: EntityId) -> (range: Option<u8>)
        ensures
            range == match equipped_ranged_of(self@, owner.0) {
                Some(weapon) => match weapon.kind {
                    ItemKind::RangedWeapon { range, .. } => Some(range),
                    _ => None::<u8>,
                },
                None => None::<u8>,
            },
    {
        let weapon_id = match self.inventories.get(&owner.0) {
            None => {
                return None;
            },
            Some(inventory) => match inventory.equipped_ranged {
                None => {
                    return None;
                },
                Some(w) => w,
            },
        };
        match self.items.get(&weapon_id.0) {
            None => None,
            Some(it) => match it.kind {
                ItemKind::RangedWeapon { range, .. } => Some(range),
                _ => None,
            },
        }
    }

    /// Whether `attacker` could shoot `target` now, or why not.
    pub fn check_ranged_attack(&self, attacker: EntityId, target: EntityId) -> (check: Result<(), ActionFailure>)
        ensures
            check == match ranged_plan(self@, attacker, target) {
                Ok(_) => Ok::<(), ActionFailure>(()),
                Err(reason) => Err(reason),
            },
    {
        match self.ranged_attack_plan(attacker, target) {
            Ok(_) => Ok(()),
            Err(reason) => Err(reason),
        }
    }
}


/// A living combatant hostile to the player.
pub open spec fn living_hostile(s: SimState, k: u64) -> bool {
    &&& s.entities.contains_key(k)
    &&& s.combatants.contains_key(k)
    &&& s.combatants[k].hostile_to_player
    &&& s.combatants[k].health > 0
}

/// How far a hostile stands from the player: king-move distance for
/// shooting, four-way steps for melee.
pub open spec fn threat_distance(s: SimState, k: u64, ranged: bool) -> int {
    if ranged {
        chebyshev_distance(player_position(s).grid, s.entities[k].position.grid)
    } else {
        taxicab_distance(player_position(s).grid, s.entities[k].position.grid)
    }
}

/// A living hostile on the player's map layer that can be struck: within one
/// step for melee, or within `limit` and in clear sight for shooting.
pub open spec fn threat_candidate(s: SimState, k: u64, ranged: bool, limit: int) -> bool {
    let p = player_position(s);
    &&& living_hostile(s, k)
    &&& s.entities[k].position.map == p.map
    &&& s.entities[k].position.grid.z == p.grid.z
    &&& threat_distance(s, k, ranged) <= limit
    &&& ranged ==> line_clear(s, p, s.entities[k].position)
}

/// Candidate `k` comes no later than `j`: nearer, or as near with a lower identity.
pub open spec fn threat_before(s: SimState, k: u64, j: u64, ranged: bool) -> bool {
    threat_distance(s, k, ranged) < threat_distance(s, j, ranged) || (threat_distance(s, k, ranged)
        == threat_distance(s, j, ranged) && k <= j)
}

/// The nearest candidate, ties going to the lowest identity.
pub open spec fn nearest_threat(s: SimState, ranged: bool, limit: int) -> Option<EntityId> {
    if exists|k: u64| threat_candidate(s, k, ranged, limit) {
        Some(
            EntityId(
                choose|k: u64|
                    threat_candidate(s, k, ranged, limit) && forall|j: u64|
                        threat_candidate(s, j, ranged, limit) ==> threat_before(s, k, j, ranged),
            ),
        )
    } else {
        None
    }
}

/// A candidate's place in the order of `threat_before`, as one number.
pub open spec fn threat_rank(s: SimState, k: u64, ranged: bool) -> int {
    threat_distance(s, k, ranged) * 0x1_0000_0000_0000_0000 + k
}

/// A lower rank comes first.
proof fn lemma_rank_orders(s: SimState, k: u64, j: u64, ranged: bool)
    requires
        threat_rank(s, k, ranged) <= threat_rank(s, j, ranged),
        threat_distance(s, k, ranged) >= 0,
        threat_distance(s, j, ranged) >= 0,
    ensures
        threat_before(s, k, j, ranged),
{
    let dk = threat_distance(s, k, ranged);
    let dj = threat_distance(s, j, ranged);
    let m: int = 0x1_0000_0000_0000_0000;
    if dk > dj {
        assert(dk * m >= (dj + 1) * m) by (nonlinear_arith)
            requires
                dk >= dj + 1,
                m > 0,
        ;
        assert(false);
    }
}

/// Where some hostile can be struck, one of them comes first: the nearest
/// pick always names a real candidate.
pub proof fn lemma_nearest_exists(s: SimState, ranged: bool, limit: int, n: nat)
    requires
        exists|k: u64| threat_candidate(s, k, ranged, limit) && threat_rank(s, k, ranged) <= n,
    ensures
        nearest_threat(s, ranged, limit) matches Some(e) && threat_candidate(s, e.0, ranged, limit),
    decreases n,
{
    if n > 0 && exists|k: u64| threat_candidate(s, k, ranged, limit) && threat_rank(s, k, ranged) <= n - 1 {
        lemma_nearest_exists(s, ranged, limit, (n - 1) as nat);
    } else {
        let k = choose|k: u64| threat_candidate(s, k, ranged, limit) && threat_rank(s, k, ranged) <= n;
        assert forall|j: u64| threat_candidate(s, j, ranged, limit) implies threat_before(s, k, j, ranged) by {
            if threat_rank(s, j, ranged) < threat_rank(s, k, ranged) {
                assert(threat_rank(s, j, ranged) <= n - 1);
                assert(threat_distance(s, j, ranged) >= 0);
                assert(threat_distance(s, j, ranged) * 0x1_0000_0000_0000_0000 >= 0) by (nonlinear_arith)
                    requires
                        threat_distance(s, j, ranged) >= 0,
                ;
            } else {
                lemma_rank_orders(s, k, j, ranged);
            }
        }
    }
}

/// The nearest pick is a candidate whenever there is one at all.
pub proof fn lemma_nearest_is_candidate(s: SimState, ranged: bool, limit: int)
    ensures
        nearest_threat(s, ranged, limit) matches Some(e) ==> threat_candidate(s, e.0, ranged, limit),
{
    if exists|k: u64| threat_candidate(s, k, ranged, limit) {
        let k = choose|k: u64| threat_candidate(s, k, ranged, limit);
        assert(threat_distance(s, k, ranged) >= 0);
        assert(threat_rank(s, k, ranged) >= 0) by (nonlinear_arith)
            requires
                threat_distance(s, k, ranged) >= 0,
                threat_rank(s, k, ranged) == threat_distance(s, k, ranged) * 0x1_0000_0000_0000_0000 + k,
        ;
        lemma_nearest_exists(s, ranged, limit, threat_rank(s, k, ranged) as nat);
    }
}

/// The range of the player's equipped ranged weapon, if any.
pub open spec fn player_weapon_range(s: SimState) -> Option<u8> {
    match equipped_ranged_of(s, s.player.0) {
        Some(weapon) => match weapon.kind {
            ItemKind::RangedWeapon { range, .. } => Some(range),
            _ => None,
        },
        None => None,
    }
}

/// The hostile the player would shoot: none without a ranged weapon.
pub open spec fn ranged_threat(s: SimState) -> Option<EntityId> {
    match player_weapon_range(s) {
        Some(range) => nearest_threat(s, true, range as int),
        None => None,
    }
}

fn taxicab_i64(first: GridPos, second: GridPos) -> (d: i64)
    ensures
        d == taxicab_distance(first, second),
{
    abs_i64(first.x as i64 - second.x as i64) + abs_i64(first.y as i64 - second.y as i64)
}

fn chebyshev_i64(first: GridPos, second: GridPos) -> (d: i64)
    ensures
        d == chebyshev_distance(first, second),
{
    let dx = abs_i64(first.x as i64 - second.x as i64);
    let dy = abs_i64(first.y as i64 - second.y as i64);
    if dx >= dy {
        dx
    } else {
        dy
    }
}

impl Simulation {
    fn is_living_hostile(&self, k: u64) -> (hostile: bool)
        ensures
            hostile == living_hostile(self@, k),
    {
        if !self.entities.contains_key(&k) {
            return false;
        }
        match self.combatants.get(&k) {
            None => false,
            Some(c) => c.hostile_to_player && c.health > 0,
        }
    }

    fn nearest_hostile(&self, ranged: bool, limit: i64) -> (found: Option<EntityId>)
        requires
            self.wf(),
        ensures
            found == nearest_threat(self@, ranged, limit as int),
    {
        let p = match self.entities.get(&self.player.0) {
            None => {
                return None;
            },
            Some(e) => e.position,
        };
        let keys = map_keys(&self.entities);
        let mut best: Option<(i64, u64)> = None;
        let mut i: usize = 0;
        while i < keys.len()
            invariant
                i <= keys@.len(),
                keys@.to_set() == self@.entities.dom(),
                strictly_increasing(keys@),
                p == player_position(self@),
                match best {
                    None => forall|j: int| 0 <= j < i ==> !threat_candidate(self@, #[trigger] keys@[j], ranged, limit as int),
                    Some((d, k)) => {
                        &&& threat_candidate(self@, k, ranged, limit as int)
                        &&& d == threat_distance(self@, k, ranged)
                        &&& exists|j: int| 0 <= j < i && keys@[j] == k
                        &&& forall|j: int|
                            0 <= j < i && threat_candidate(self@, #[trigger] keys@[j], ranged, limit as int)
                                ==> threat_before(self@, k, keys@[j], ranged)
                    },
                },
            decreases keys@.len() - i,
        {
            let k = keys[i];
            proof {
                assert(keys@.to_set().contains(k));
            }
            let position = match self.entities.get(&k) {
                None => p,
                Some(e) => e.position,
            };
            if self.is_living_hostile(k) && position.map == p.map && position.grid.z == p.grid.z {
                let d = if ranged {
                    chebyshev_i64(p.grid, position.grid)
                } else {
                    taxicab_i64(p.grid, position.grid)
                };
                let sight = if ranged {
                    self.clear_line(p, position)
                } else {
                    true
                };
                if d <= limit && sight {
                    let better = match best {
                        None => true,
                        Some((bd, _)) => d < bd,
                    };
                    if better {
                        proof {
                            assert forall|j: int|
                                0 <= j < i + 1 && threat_candidate(self@, #[trigger] keys@[j], ranged, limit as int)
                                    implies threat_before(self@, k, keys@[j], ranged) by {
                                if j < i {
                                    assert(keys@[j] < k);
                                }
                            }
                        }
                        assert(keys@[i as int] == k);
                        best = Some((d, k));
                    } else {
                        proof {
                            let (bd, bk) = best.unwrap();
                            let bj = choose|j: int| 0 <= j < i && keys@[j] == bk;
                            assert(bk < k);
                        }
                    }
                }
            }
            i = i + 1;
        }
        match best {
            None => {
                proof {
                    assert forall|k: u64| !threat_candidate(self@, k, ranged, limit as int) by {
                        if threat_candidate(self@, k, ranged, limit as int) {
                            assert(keys@.to_set().contains(k));
                            let j = choose|j: int| 0 <= j < keys@.len() && keys@[j] == k;
                            assert(!threat_candidate(self@, keys@[j], ranged, limit as int));
                        }
                    }
                }
                None
            },
            Some((_, k)) => {
                proof {
                    assert forall|j: u64| threat_candidate(self@, j, ranged, limit as int) implies threat_before(
                        self@,
                        k,
                        j,
                        ranged,
                    ) by {
                        assert(keys@.to_set().contains(j));
                        let jj = choose|jj: int| 0 <= jj < keys@.len() && keys@[jj] == j;
                        assert(threat_candidate(self@, keys@[jj], ranged, limit as int));
                    }
                    let c = choose|c: u64|
                        threat_candidate(self@, c, ranged, limit as int) && forall|j: u64|
                            threat_candidate(self@, j, ranged, limit as int) ==> threat_before(self@, c, j, ranged);
                    assert(threat_before(self@, c, k, ranged) && threat_before(self@, k, c, ranged));
                }
                Some(EntityId(k))
            },
        }
    }

    /// The nearest living hostile the player can strike in melee, ties going
    /// to the lowest identity.
    pub fn hostile_in_melee_range(&self) -> (hostile: Option<EntityId>)
        requires
            self.wf(),
        ensures
            hostile == nearest_threat(self@, false, 1),
    {
        self.nearest_hostile(false, 1)
    }

    /// The nearest living hostile the player can shoot with the equipped ranged
    /// weapon: within its range and in clear sight.
    pub fn hostile_in_ranged_line(&self) -> (hostile: Option<EntityId>)
        requires
            self.wf(),
        ensures
            hostile == ranged_threat(self@),
    {
        match self.equipped_ranged_range(self.player) {
            None => None,
            Some(range) => self.nearest_hostile(true, range as i64),
        }
    }
}


/// The events report that `kind`'s goal was reached by the player: the named
/// foe defeated by the player, or the named item handed to the player.
pub open spec fn objective_met(events: Seq<SimulationEvent>, kind: QuestObjectiveKind, player: EntityId) -> bool {
    match kind {
        QuestObjectiveKind::Defeat(target) => exists|i: int|
            0 <= i < events.len() && events[i] == (SimulationEvent::Defeated { entity: target, by: player }),
        QuestObjectiveKind::Recover(item) => exists|i: int|
            0 <= i < events.len() && recovers(events[i], item, player),
    }
}

/// `e` moves `item` (or part of its stack) to `player`.
pub open spec fn recovers(e: SimulationEvent, item: ItemId, player: EntityId) -> bool {
    match e {
        SimulationEvent::ItemTransferred { item: moved, to, .. } => moved == item && to == player,
        SimulationEvent::ItemQuantityTransferred { source, to, .. } => source == item && to == player,
        _ => false,
    }
}

/// An active quest after the events: each objective whose goal the events
/// report is completed, and a quest whose objectives are all complete is
/// ready to turn in. Other quests do not change.
pub open spec fn quest_progressed(before: Quest, after: Quest, events: Seq<SimulationEvent>, player: EntityId) -> bool {
    if before.status != QuestStatus::Active {
        after == before
    } else {
        &&& after.id == before.id
        &&& after.title == before.title
        &&& after.description == before.description
        &&& after.giver == before.giver
        &&& after.reward_experience == before.reward_experience
        &&& after.objectives@.len() == before.objectives@.len()
        &&& forall|i: int|
            0 <= i < before.objectives@.len() ==> {
                &&& (#[trigger] after.objectives@[i]).description == before.objectives@[i].description
                &&& after.objectives@[i].kind == before.objectives@[i].kind
                &&& after.objectives@[i].completed == (before.objectives@[i].completed || objective_met(
                    events,
                    before.objectives@[i].kind,
                    player,
                ))
            }
        &&& after.status == if forall|i: int|
            0 <= i < after.objectives@.len() ==> (#[trigger] after.objectives@[i]).completed {
            QuestStatus::ReadyToTurnIn
        } else {
            QuestStatus::Active
        }
    }
}

/// An event announcing quest progress.
pub open spec fn quest_notice(e: SimulationEvent) -> bool {
    e is QuestAdvanced || e is QuestReadyToTurnIn
}

fn defeated_in(events: &Vec<SimulationEvent>, entity: EntityId, by: EntityId) -> (found: bool)
    ensures
        found == exists|i: int|
            0 <= i < events@.len() && events@[i] == (SimulationEvent::Defeated { entity, by }),
{
    let mut i: usize = 0;
    while i < events.len()
        invariant
            i <= events@.len(),
            forall|j: int| 0 <= j < i ==> events@[j] != (SimulationEvent::Defeated { entity, by }),
        decreases events@.len() - i,
    {
        let hit = match events[i] {
            SimulationEvent::Defeated { entity: e, by: b } => e == entity && b == by,
            _ => false,
        };
        if hit {
            return true;
        }
        i = i + 1;
    }
    false
}

fn recovered_in(events: &Vec<SimulationEvent>, item: ItemId, player: EntityId) -> (found: bool)
    ensures
        found == exists|i: int| 0 <= i < events@.len() && recovers(events@[i], item, player),
{
    let mut i: usize = 0;
    while i < events.len()
        invariant
            i <= events@.len(),
            forall|j: int| 0 <= j < i ==> !recovers(#[trigger] events@[j], item, player),
        decreases events@.len() - i,
    {
        let hit = match events[i] {
            SimulationEvent::ItemTransferred { item: moved, to, .. } => moved == item && to == player,
            SimulationEvent::ItemQuantityTransferred { source, to, .. } => source == item && to == player,
            _ => false,
        };
        if hit {
            return true;
        }
        i = i + 1;
    }
    false
}

fn objective_reached(events: &Vec<SimulationEvent>, kind: QuestObjectiveKind, player: EntityId) -> (met: bool)
    ensures
        met == objective_met(events@, kind, player),
{
    match kind {
        QuestObjectiveKind::Defeat(target) => defeated_in(events, target, player),
        QuestObjectiveKind::Recover(item) => recovered_in(events, item, player),
    }
}

impl Simulation {
    /// Advances every active quest by what `events` report.
    fn advance_quests_from_events(&mut self, events: &mut Vec<SimulationEvent>)
        requires
            old(self).wf(),
        ensures
            final(self).wf(),
            final(self)@ == (SimState { quests: final(self)@.quests, ..old(self)@ }),
            final(self)@.quests.dom() == old(self)@.quests.dom(),
            forall|k: u64| #[trigger] old(self)@.quests.contains_key(k) ==> quest_progressed(
                old(self)@.quests[k],
                final(self)@.quests[k],
                old(events)@,
                old(self)@.player,
            ),
            final(events)@.len() >= old(events)@.len(),
            final(events)@.subrange(0, old(events)@.len() as int) == old(events)@,
            forall|i: int| old(events)@.len() <= i < final(events)@.len() ==> quest_notice(#[trigger] final(events)@[i]),
    {
        let ghost s0 = self@;
        let ghost base = events@;
        let player = self.player;
        let keys = map_keys(&self.quests);
        let ghost key_set = self@.quests.dom();
        let mut notices: Vec<SimulationEvent> = Vec::new();
        let mut q: usize = 0;
        while q < keys.len()
            invariant
                self.wf(),
                q <= keys@.len(),
                keys@.to_set() == key_set,
                strictly_increasing(keys@),
                key_set == s0.quests.dom(),
                self@.quests.dom() == s0.quests.dom(),
                self@ == (SimState { quests: self@.quests, ..s0 }),
                events@ == base,
                player == s0.player,
                forall|j: int| 0 <= j < q ==> quest_progressed(s0.quests[#[trigger] keys@[j]], self@.quests[keys@[j]], base, player),
                forall|j: int| q <= j < keys@.len() ==> self@.quests[#[trigger] keys@[j]] == s0.quests[keys@[j]],
                forall|i: int| 0 <= i < notices@.len() ==> quest_notice(#[trigger] notices@[i]),
            decreases keys@.len() - q,
        {
            let k = keys[q];
            proof {
                assert(keys@.to_set().contains(k));
            }
            let ghost before = self@.quests;
            let ghost pre = self@;
            let quest = match self.quests.remove(&k) {
                None => {
                    proof {
                        assert(false);
                    }
                    return;
                },
                Some(quest) => quest,
            };
            let ghost prior = quest;
            let updated = if quest.status != QuestStatus::Active {
                quest
            } else {
                let mut objectives: Vec<QuestObjective> = Vec::new();
                let mut all_done = true;
                let mut o: usize = 0;
                while o < quest.objectives.len()
                    invariant
                        o <= quest.objectives@.len(),
                        quest == prior,
                        objectives@.len() == o,
                        all_done == forall|j: int| 0 <= j < o ==> (#[trigger] objectives@[j]).completed,
                        forall|j: int|
                            0 <= j < o ==> {
                                &&& (#[trigger] objectives@[j]).description == quest.objectives@[j].description
                                &&& objectives@[j].kind == quest.objectives@[j].kind
                                &&& objectives@[j].completed == (quest.objectives@[j].completed || objective_met(
                                    base,
                                    quest.objectives@[j].kind,
                                    player,
                                ))
                            },
                        forall|i: int| 0 <= i < notices@.len() ==> quest_notice(#[trigger] notices@[i]),
                        events@ == base,
                    decreases quest.objectives@.len() - o,
                {
                    let objective = &quest.objectives[o];
                    let completed = objective.completed || objective_reached(events, objective.kind, player);
                    if completed && !objective.completed {
                        notices.push(SimulationEvent::QuestAdvanced { quest: quest.id, objective: o });
                    }
                    let ghost done_before = all_done;
                    let ghost previous = objectives@;
                    all_done = all_done && completed;
                    objectives.push(
                        QuestObjective {
                            description: objective.description.clone(),
                            kind: objective.kind,
                            completed,
                        },
                    );
                    proof {
                        assert(objectives@[o as int].completed == completed);
                        assert forall|j: int| 0 <= j < o implies objectives@[j] == previous[j] by {}
                        if all_done {
                            assert forall|j: int| 0 <= j < o + 1 implies (#[trigger] objectives@[j]).completed by {
                                if j < o {
                                    assert(previous[j].completed);
                                }
                            }
                        } else if !completed {
                            assert(!objectives@[o as int].completed);
                        } else {
                            let w = choose|j: int| 0 <= j < o && !(#[trigger] previous[j]).completed;
                            assert(!objectives@[w].completed);
                        }
                    }
                    o = o + 1;
                }
                let status = if all_done {
                    notices.push(SimulationEvent::QuestReadyToTurnIn { quest: quest.id });
                    QuestStatus::ReadyToTurnIn
                } else {
                    QuestStatus::Active
                };
                Quest { objectives, status, ..quest }
            };
            proof {
                assert(quest_progressed(prior, updated, base, player));
                assert(updated.id.0 == k);
            }
            self.quests.insert(k, updated);
            proof {
                assert(self@.quests =~= before.insert(k, updated));
                lemma_wf_quest_update(pre, k, updated);
                assert(self@ =~= SimState { quests: pre.quests.insert(k, updated), ..pre });
                assert forall|j: int| 0 <= j < q + 1 implies quest_progressed(
                    s0.quests[#[trigger] keys@[j]],
                    self@.quests[keys@[j]],
                    base,
                    player,
                ) by {
                    if j < q {
                        assert(keys@[j] < k);
                    }
                }
                assert forall|j: int| q + 1 <= j < keys@.len() implies self@.quests[#[trigger] keys@[j]]
                    == s0.quests[keys@[j]] by {
                    assert(keys@[j] > k);
                }
                assert(self@ =~= SimState { quests: self@.quests, ..s0 });
            }
            q = q + 1;
        }
        proof {
            assert forall|k: u64| #[trigger] s0.quests.contains_key(k) implies quest_progressed(
                s0.quests[k],
                self@.quests[k],
                base,
                player,
            ) by {
                assert(keys@.to_set().contains(k));
                let j = choose|j: int| 0 <= j < keys@.len() && keys@[j] == k;
                assert(quest_progressed(s0.quests[keys@[j]], self@.quests[keys@[j]], base, player));
            }
        }
        let ghost n = notices@;
        events.append(&mut notices);
        proof {
            assert(events@ == base + n);
            assert(events@.subrange(0, base.len() as int) =~= base);
            assert forall|i: int| base.len() <= i < events@.len() implies quest_notice(#[trigger] events@[i]) by {
                assert(events@[i] == n[i - base.len()]);
            }
        }
    }
}


/// `a + b` clamped to the `i16` range.
pub open spec fn clamped_sum(a: i16, b: i16) -> i16 {
    if a + b > i16::MAX {
        i16::MAX
    } else if a + b < i16::MIN {
        i16::MIN
    } else {
        (a + b) as i16
    }
}

fn add_clamped(a: i16, b: i16) -> (sum: i16)
    ensures
        sum == clamped_sum(a, b),
{
    let wide: i32 = a as i32 + b as i32;
    if wide > i16::MAX as i32 {
        i16::MAX
    } else if wide < i16::MIN as i32 {
        i16::MIN
    } else {
        wide as i16
    }
}

/// The damage of the melee weapon `owner` has equipped, or one bare-handed.
pub open spec fn melee_weapon_damage(s: SimState, owner: u64) -> i16 {
    if s.inventories.contains_key(owner) && s.inventories[owner].equipped_melee is Some && s.items.contains_key(
        s.inventories[owner].equipped_melee.unwrap().0,
    ) {
        match s.items[s.inventories[owner].equipped_melee.unwrap().0].kind {
            ItemKind::MeleeWeapon { damage } => damage,
            _ => 1,
        }
    } else {
        1
    }
}

/// The player's attacks add the attack bonus; other attackers strike as they are.
pub open spec fn with_bonus(s: SimState, attacker: EntityId, damage: i16) -> i16 {
    if attacker == s.player {
        clamped_sum(damage, s.progression.attack_bonus)
    } else {
        damage
    }
}

/// The state once a blow has struck, before its rewards: the target's damage
/// taken and the attacker's practice counted.
pub open spec fn blow_state(a: SimState, mid: SimState, attacker: EntityId, target: EntityId, raw: i16, method: CombatMethod) -> SimState {
    let practiced = CharacterProgression {
        martial_practice: practice_after(a.progression.martial_practice, attacker == a.player && method == CombatMethod::Melee),
        ranged_practice: practice_after(a.progression.ranged_practice, attacker == a.player && method == CombatMethod::Ranged),
        ..a.progression
    };
    SimState { progression: practiced, ..after_damage(mid, target.0, raw) }
}

/// The effects of a blow that every resolved attack shares: the events begin
/// with the damage notices, one tick passes, and no one moves. A player who
/// defeats the target earns its experience and takes its loot; every active
/// quest then advances by what the events and the loot show. Titles, theft
/// marks and containers stay as they were.
#[verifier::opaque]
pub open spec fn blow_landed(
    a: SimState,
    mid: SimState,
    b: SimState,
    o: CommandOutcome,
    attacker: EntityId,
    target: EntityId,
    raw: i16,
    method: CombatMethod,
    prefix: Seq<SimulationEvent>,
) -> bool {
    let notices = damage_notices(mid, attacker, target, raw, method);
    let landed = blow_state(a, mid, attacker, target, raw, method);
    let kill_reward = if attacker == a.player && blow_defeats(mid, target, raw) {
        defeat_reward(mid, target)
    } else {
        0
    };
    &&& o.advanced_time
    &&& o.changed_world
    &&& o.events@.len() >= prefix.len() + notices.len()
    &&& o.events@.subrange(0, prefix.len() as int) == prefix
    &&& o.events@.subrange(prefix.len() as int, (prefix.len() + notices.len()) as int) == notices
    &&& b.tick == a.tick.saturating_add(1)
    &&& b.entities == a.entities
    &&& b.maps == a.maps
    &&& b.items == mid.items
    &&& b.progression == after_experience(landed, kill_reward).progression
    &&& target != a.player ==> b.combatants[a.player.0] == after_experience(landed, kill_reward).combatants[a.player.0]
    &&& target != a.player ==> b.combatants[target.0] == after_damage(mid, target.0, raw).combatants[target.0]
    &&& b.combatants.dom() == a.combatants.dom()
        &&& forall|k: u64|
            k != target.0 && k != a.player.0 && #[trigger] a.combatants.contains_key(k) ==> b.combatants[k]
                == a.combatants[k]
        &&& b == (SimState {
            tick: b.tick,
            progression: b.progression,
            combatants: b.combatants,
            inventories: b.inventories,
            quests: b.quests,
            ..landed
        })
        &&& b.quests.dom() == a.quests.dom()
        &&& exists|looted: Set<u64>|
            loot_taken(landed, b.inventories, attacker, target, prefix + notices, looted) && forall|k: u64|
                #[trigger] a.quests.contains_key(k) ==> quest_advanced_with(
                    a.quests[k],
                    b.quests[k],
                    prefix + notices,
                    looted,
                    a.player,
                )
        &&& forall|i: int|
            prefix.len() + notices.len() <= i < o.events@.len() ==> reward_event(landed, attacker, target, #[trigger] o.events@[i])
                || quest_notice(o.events@[i])
    }

/// The stacks a defeated combatant leaves as loot: every existing item it carries.
pub open spec fn loot_set(s: SimState, target: EntityId) -> Set<u64> {
    Set::new(|i: u64| carries(s, target.0, i) && s.items.contains_key(i))
}

/// The attacker is rewarded for a defeat: the events announce it, the attacker
/// is the player, stands in the world and is not a container.
pub open spec fn rewarded(s: SimState, attacker: EntityId, target: EntityId, events: Seq<SimulationEvent>) -> bool {
    &&& exists|i: int| 0 <= i < events.len() && events[i] == (SimulationEvent::Defeated { entity: target, by: attacker })
    &&& attacker == s.player
    &&& s.entities.contains_key(attacker.0)
    &&& !s.containers.contains_key(attacker.0)
}

/// An event that the rewards of a defeat add: experience, a level, or one
/// stack of loot handed from the target to the attacker.
pub open spec fn reward_event(s: SimState, attacker: EntityId, target: EntityId, e: SimulationEvent) -> bool {
    match e {
        SimulationEvent::ExperienceGained { .. } => true,
        SimulationEvent::LevelGained { .. } => true,
        SimulationEvent::ItemTransferred { item, from, to } => from == target && to == attacker && loot_set(
            s,
            target,
        ).contains(item.0),
        _ => false,
    }
}

/// Whether an objective is met by `events` or by loot recovered from `looted`.
pub open spec fn objective_met_with(
    events: Seq<SimulationEvent>,
    looted: Set<u64>,
    kind: QuestObjectiveKind,
    player: EntityId,
) -> bool {
    objective_met(events, kind, player) || match kind {
        QuestObjectiveKind::Recover(item) => looted.contains(item.0),
        QuestObjectiveKind::Defeat(_) => false,
    }
}

/// A quest advanced by `events` and by loot recovered from `looted`: its met
/// objectives are completed, and it is ready to turn in once all are.
pub open spec fn quest_advanced_with(
    before: Quest,
    after: Quest,
    events: Seq<SimulationEvent>,
    looted: Set<u64>,
    player: EntityId,
) -> bool {
    if before.status != QuestStatus::Active {
        after == before
    } else {
        &&& after.id == before.id
        &&& after.title == before.title
        &&& after.description == before.description
        &&& after.giver == before.giver
        &&& after.reward_experience == before.reward_experience
        &&& after.objectives@.len() == before.objectives@.len()
        &&& forall|i: int|
            0 <= i < before.objectives@.len() ==> {
                &&& (#[trigger] after.objectives@[i]).description == before.objectives@[i].description
                &&& after.objectives@[i].kind == before.objectives@[i].kind
                &&& after.objectives@[i].completed == (before.objectives@[i].completed || objective_met_with(
                    events,
                    looted,
                    before.objectives@[i].kind,
                    player,
                ))
            }
        &&& after.status == if forall|i: int|
            0 <= i < after.objectives@.len() ==> (#[trigger] after.objectives@[i]).completed {
            QuestStatus::ReadyToTurnIn
        } else {
            QuestStatus::Active
        }
    }
}

/// An equipment slot after the stacks in `lost` left its holder.
pub open spec fn slot_after_loss(slot: Option<ItemId>, lost: Set<u64>) -> Option<ItemId> {
    match slot {
        Some(w) => if lost.contains(w.0) {
            None
        } else {
            slot
        },
        None => None,
    }
}

/// The inventories after the stacks in `looted` passed from the target to the
/// attacker: the target no longer carries them and has them unequipped, the
/// attacker carries them (given an empty inventory if it had none), and every
/// other inventory stays as it was.
pub open spec fn loot_moved(
    a: Map<u64, Inventory>,
    b: Map<u64, Inventory>,
    target: u64,
    attacker: u64,
    looted: Set<u64>,
) -> bool {
    &&& b.dom() == if looted.is_empty() {
        a.dom()
    } else {
        a.dom().insert(attacker)
    }
    &&& forall|k: u64| k != target && k != attacker && #[trigger] a.contains_key(k) ==> b[k] == a[k]
    &&& held_items(b, attacker) == held_items(a, attacker).union(looted)
    &&& target != attacker ==> held_items(b, target) == held_items(a, target).difference(looted)
    &&& a.contains_key(target) ==> {
        &&& b[target].equipped_melee == slot_after_loss(a[target].equipped_melee, looted)
        &&& b[target].equipped_ranged == slot_after_loss(a[target].equipped_ranged, looted)
    }
    &&& target != attacker && a.contains_key(attacker) ==> {
        &&& b[attacker].equipped_melee == a[attacker].equipped_melee
        &&& b[attacker].equipped_ranged == a[attacker].equipped_ranged
    }
    &&& !a.contains_key(attacker) && !looted.is_empty() ==> {
        &&& b[attacker].equipped_melee is None
        &&& b[attacker].equipped_ranged is None
    }
}

/// The loot a defeat hands over: part of what the target carried, all of it
/// when the player is rewarded, nothing unless the player made the defeat;
/// and the inventories after it moved.
pub open spec fn loot_taken(
    s: SimState,
    after: Map<u64, Inventory>,
    attacker: EntityId,
    target: EntityId,
    events: Seq<SimulationEvent>,
    looted: Set<u64>,
) -> bool {
    &&& looted.subset_of(loot_set(s, target))
    &&& rewarded(s, attacker, target, events) ==> looted == loot_set(s, target)
    &&& attacker != s.player ==> looted.is_empty()
    &&& !(exists|i: int| 0 <= i < events.len() && events[i] == (SimulationEvent::Defeated { entity: target, by: attacker }))
        ==> looted.is_empty()
    &&& loot_moved(s.inventories, after, target.0, attacker.0, looted)
}

/// The events after `base` announce exactly the stacks in `looted` handed
/// from the target to the attacker.
pub open spec fn loot_announced(
    base: Seq<SimulationEvent>,
    all: Seq<SimulationEvent>,
    looted: Set<u64>,
    attacker: EntityId,
    target: EntityId,
) -> bool {
    &&& forall|i: int|
        base.len() <= i < all.len() && (#[trigger] all[i]) is ItemTransferred ==> looted.contains(
            all[i]->ItemTransferred_item.0,
        )
    &&& forall|item: u64| #[trigger] looted.contains(item) ==> exists|i: int|
        base.len() <= i < all.len() && all[i] == (SimulationEvent::ItemTransferred {
            item: ItemId(item),
            from: target,
            to: attacker,
        })
}

/// Nothing looted leaves the inventories as they were.
proof fn lemma_nothing_looted(a: Map<u64, Inventory>, target: u64, attacker: u64)
    ensures
        loot_moved(a, a, target, attacker, Set::empty()),
{
    assert(held_items(a, attacker).union(Set::empty()) =~= held_items(a, attacker));
    assert(held_items(a, target).difference(Set::empty()) =~= held_items(a, target));
    if a.contains_key(target) {
        assert(slot_after_loss(a[target].equipped_melee, Set::empty()) == a[target].equipped_melee);
        assert(slot_after_loss(a[target].equipped_ranged, Set::empty()) == a[target].equipped_ranged);
    }
}

/// One more stack taken from the target and handed to the attacker.
proof fn lemma_loot_step(
    a: Map<u64, Inventory>,
    m: Map<u64, Inventory>,
    m2: Map<u64, Inventory>,
    b: Map<u64, Inventory>,
    target: u64,
    attacker: u64,
    looted: Set<u64>,
    item: u64,
)
    requires
        loot_moved(a, m, target, attacker, looted),
        looted.subset_of(held_items(a, target)),
        held_items(a, target).contains(item),
        !looted.contains(item),
        inventory_lost(m, m2, target, item),
        inventory_gained(m2, b, attacker, item),
    ensures
        loot_moved(a, b, target, attacker, looted.insert(item)),
{
    let l2 = looted.insert(item);
    assert(b.dom() =~= a.dom().insert(attacker));
    assert(held_items(b, attacker) =~= held_items(a, attacker).union(l2));
        if target != attacker {
            assert(held_items(b, target) =~= held_items(a, target).difference(l2));
        }
        assert forall|k: u64| k != target && k != attacker && #[trigger] a.contains_key(k) implies b[k] == a[k] by {
            assert(m.contains_key(k));
            assert(m2.contains_key(k));
        }
        assert(m.contains_key(target));
        if a.contains_key(target) {
            assert(b[target].equipped_melee == slot_after_loss(a[target].equipped_melee, l2));
            assert(b[target].equipped_ranged == slot_after_loss(a[target].equipped_ranged, l2));
        }
        if target != attacker && a.contains_key(attacker) {
            assert(m2.contains_key(attacker));
        }
        if !a.contains_key(attacker) {
            if looted.is_empty() {
                assert(!m2.contains_key(attacker));
            } else {
                assert(m2.contains_key(attacker));
            }
        }
    }

/// Quests advanced over events that add only rewards to `base` are advanced
/// over `base` and the loot those rewards hand to the player.
proof fn lemma_quest_over_rewards(
    s: SimState,
    attacker: EntityId,
    target: EntityId,
    base: Seq<SimulationEvent>,
    all: Seq<SimulationEvent>,
    looted: Set<u64>,
    before: Quest,
    after: Quest,
)
    requires
        all.len() >= base.len(),
        all.subrange(0, base.len() as int) == base,
        forall|i: int| base.len() <= i < all.len() ==> reward_event(s, attacker, target, #[trigger] all[i]),
        loot_announced(base, all, looted, attacker, target),
        attacker != s.player ==> looted.is_empty(),
        quest_progressed(before, after, all, s.player),
    ensures
        quest_advanced_with(before, after, base, looted, s.player),
{
    assert forall|kind: QuestObjectiveKind|
        objective_met(all, kind, s.player) == #[trigger] objective_met_with(base, looted, kind, s.player) by {
        match kind {
            QuestObjectiveKind::Defeat(t) => {
                if objective_met(all, kind, s.player) {
                    let i = choose|i: int|
                        0 <= i < all.len() && all[i] == (SimulationEvent::Defeated { entity: t, by: s.player });
                    if i >= base.len() {
                        assert(reward_event(s, attacker, target, all[i]));
                    } else {
                        assert(base[i] == all[i]);
                    }
                }
                if objective_met(base, kind, s.player) {
                    let i = choose|i: int|
                        0 <= i < base.len() && base[i] == (SimulationEvent::Defeated { entity: t, by: s.player });
                    assert(all[i] == base[i]);
                }
            },
            QuestObjectiveKind::Recover(item) => {
                if objective_met(all, kind, s.player) {
                    let i = choose|i: int| 0 <= i < all.len() && recovers(all[i], item, s.player);
                    if i >= base.len() {
                        assert(reward_event(s, attacker, target, all[i]));
                        assert(all[i] is ItemTransferred);
                        assert(looted.contains(item.0));
                    } else {
                        assert(base[i] == all[i]);
                    }
                }
                if objective_met(base, kind, s.player) {
                    let i = choose|i: int| 0 <= i < base.len() && recovers(base[i], item, s.player);
                    assert(all[i] == base[i]);
                }
                if looted.contains(item.0) {
                    let i = choose|i: int|
                        base.len() <= i < all.len() && all[i] == (SimulationEvent::ItemTransferred {
                            item: ItemId(item.0),
                            from: target,
                            to: attacker,
                        });
                    assert(all[i] is ItemTransferred);
                    assert(recovers(all[i], item, s.player));
                }
            },
        }
    }
    if before.status == QuestStatus::Active {
        assert forall|i: int| 0 <= i < before.objectives@.len() implies {
            &&& (#[trigger] after.objectives@[i]).description == before.objectives@[i].description
            &&& after.objectives@[i].kind == before.objectives@[i].kind
            &&& after.objectives@[i].completed == (before.objectives@[i].completed || objective_met_with(
                base,
                looted,
                before.objectives@[i].kind,
                s.player,
            ))
        } by {
            assert(objective_met(all, before.objectives@[i].kind, s.player) == objective_met_with(
                base,
                looted,
                before.objectives@[i].kind,
                s.player,
            ));
        }
    }
}

/// The experience a defeated combatant is worth.
pub open spec fn defeat_reward(s: SimState, target: EntityId) -> u32 {
    if s.combatants.contains_key(target.0) {
        s.combatants[target.0].experience_reward
    } else {
        0
    }
}

/// A blow of `raw` leaves the target with no health.
pub open spec fn blow_defeats(s: SimState, target: EntityId, raw: i16) -> bool {
    health_after(s.combatants[target.0].health, damage_amount(raw, s.combatants[target.0].armor)) == 0
}

/// After a blow, the events so far announce the target's defeat by the
/// attacker exactly when the blow left it without health.
proof fn lemma_defeat_announced(
    prefix: Seq<SimulationEvent>,
    mid: SimState,
    attacker: EntityId,
    target: EntityId,
    raw: i16,
    method: CombatMethod,
)
    requires
        forall|i: int| 0 <= i < prefix.len() ==> !(#[trigger] prefix[i] is Defeated),
    ensures
        (exists|i: int|
            0 <= i < (prefix + damage_notices(mid, attacker, target, raw, method)).len() && (prefix + damage_notices(
                mid,
                attacker,
                target,
                raw,
                method,
            ))[i] == (SimulationEvent::Defeated { entity: target, by: attacker })) == blow_defeats(mid, target, raw),
{
    let all = prefix + damage_notices(mid, attacker, target, raw, method);
    if blow_defeats(mid, target, raw) {
        assert(all[prefix.len() as int + 1] == (SimulationEvent::Defeated { entity: target, by: attacker }));
    } else {
        assert forall|i: int| 0 <= i < all.len() implies all[i] != (SimulationEvent::Defeated { entity: target, by: attacker }) by {
            if i < prefix.len() {
                assert(all[i] == prefix[i]);
            }
        }
    }
}

/// A practice count after an attack: one more, saturating, when it counts.
pub open spec fn practice_after(count: u16, counts: bool) -> u16 {
    if counts {
        count.saturating_add(1)
    } else {
        count
    }
}

impl Simulation {
    fn loot_items(&self, owner: EntityId) -> (items: Vec<u64>)
        ensures
            self@.inventories.contains_key(owner.0) ==> items@.to_set() == self@.inventories[owner.0].items@,
            !self@.inventories.contains_key(owner.0) ==> items@.len() == 0,
            strictly_increasing(items@),
    {
        match self.inventories.get(&owner.0) {
            None => Vec::new(),
            Some(inventory) => set_members(&inventory.items),
        }
    }

    /// When the player just defeated `target`, the player earns its experience
    /// reward and takes everything it carried.
    fn resolve_defeat_rewards(&mut self, attacker: EntityId, target: EntityId, events: &mut Vec<SimulationEvent>)
        requires
            old(self).wf(),
        ensures
            final(self).wf(),
            !(exists|i: int|
                0 <= i < old(events)@.len() && old(events)@[i] == (SimulationEvent::Defeated {
                    entity: target,
                    by: attacker,
                })) || attacker != old(self)@.player ==> final(self)@ == old(self)@ && final(events)@
                == old(events)@,
            final(self)@ == (SimState {
                progression: final(self)@.progression,
                combatants: final(self)@.combatants,
                inventories: final(self)@.inventories,
                ..old(self)@
            }),
            final(self)@.combatants.dom() == old(self)@.combatants.dom(),
            forall|k: u64| k != old(self)@.player.0 && #[trigger] old(self)@.combatants.contains_key(k)
                ==> final(self)@.combatants[k] == old(self)@.combatants[k],
            final(self)@.progression == (CharacterProgression {
                level: final(self)@.progression.level,
                experience: final(self)@.progression.experience,
                attack_bonus: final(self)@.progression.attack_bonus,
                ..old(self)@.progression
            }),
            (exists|i: int|
                0 <= i < old(events)@.len() && old(events)@[i] == (SimulationEvent::Defeated {
                    entity: target,
                    by: attacker,
                })) && attacker == old(self)@.player ==> final(self)@.progression == after_experience(
                old(self)@,
                defeat_reward(old(self)@, target),
            ).progression && final(self)@.combatants == after_experience(old(self)@, defeat_reward(old(self)@, target)).combatants,
            final(events)@.len() >= old(events)@.len(),
            final(events)@.subrange(0, old(events)@.len() as int) == old(events)@,
            forall|i: int|
                old(events)@.len() <= i < final(events)@.len() ==> reward_event(
                    old(self)@,
                    attacker,
                    target,
                    #[trigger] final(events)@[i],
                ),
            exists|looted: Set<u64>|
                loot_taken(old(self)@, final(self)@.inventories, attacker, target, old(events)@, looted) && loot_announced(
                    old(events)@,
                    final(events)@,
                    looted,
                    attacker,
                    target,
                ),
    {
        if !defeated_in(events, target, attacker) || attacker.0 != self.player.0 {
            proof {
                lemma_nothing_looted(self@.inventories, target.0, attacker.0);
                assert(loot_taken(self@, self@.inventories, attacker, target, events@, Set::empty()));
                assert(loot_announced(events@, events@, Set::empty(), attacker, target));
            }
            return;
        }
        let reward = match self.combatants.get(&target.0) {
            None => 0,
            Some(c) => c.experience_reward,
        };
        let ghost s0 = self@;
        let ghost base = events@;
        if reward > 0 {
            self.grant_experience(reward, events);
        }
        let ghost s1 = self@;
        let ghost base2 = events@;
        proof {
            lemma_experience_rewards(s0, reward, s0, attacker, target);
            assert(base2 == base + experience_notices(s0, reward));
            assert(loot_set(s1, target) =~= loot_set(s0, target));
        }
        let ghost ready = !s1.containers.contains_key(attacker.0) && s1.entities.contains_key(attacker.0);
        let ghost mut looted: Set<u64> = Set::empty();
        proof {
            lemma_nothing_looted(s1.inventories, target.0, attacker.0);
        }
        let loot = self.loot_items(target);
        let mut i: usize = 0;
        while i < loot.len()
            invariant
                self.wf(),
                i <= loot@.len(),
                strictly_increasing(loot@),
                s1.inventories.contains_key(target.0) ==> loot@.to_set() == s1.inventories[target.0].items@,
                !s1.inventories.contains_key(target.0) ==> loot@.len() == 0,
                self@ == (SimState { inventories: self@.inventories, ..s1 }),
                events@.len() >= base2.len(),
                events@.subrange(0, base2.len() as int) == base2,
                attacker == s1.player,
                ready == (!s1.containers.contains_key(attacker.0) && s1.entities.contains_key(attacker.0)),
                loot_moved(s1.inventories, self@.inventories, target.0, attacker.0, looted),
                looted.subset_of(loot_set(s1, target)),
                forall|x: u64| #[trigger] looted.contains(x) ==> exists|j: int| 0 <= j < i && loot@[j] == x,
                ready ==> forall|j: int|
                    0 <= j < i && #[trigger] s1.items.contains_key(loot@[j]) ==> looted.contains(loot@[j]),
                loot_announced(base2, events@, looted, attacker, target),
                forall|k: int| base2.len() <= k < events@.len() ==> reward_event(s1, attacker, target, #[trigger] events@[k]),
                forall|j: int| i <= j < loot@.len() ==> carries(self@, target.0, #[trigger] loot@[j]),
            decreases loot@.len() - i,
        {
            let item = loot[i];
            let ghost before = self@;
            let ghost events_before = events@;
            let result = self.transfer_item(ItemId(item), target, attacker);
            match result {
                Ok(event) => {
                    events.push(event);
                },
                Err(_) => {},
            }
            proof {
                assert(events@.subrange(0, base2.len() as int) =~= base2);
                assert(loot@.to_set().contains(item));
                assert(s1.inventories.contains_key(target.0));
                assert(held_items(s1.inventories, target.0).contains(item));
                assert(!looted.contains(item)) by {
                    if looted.contains(item) {
                        let j = choose|j: int| 0 <= j < i && loot@[j] == item;
                        assert(loot@[j] < loot@[i as int]);
                    }
                }
                assert(looted.subset_of(held_items(s1.inventories, target.0))) by {
                    assert forall|x: u64| looted.contains(x) implies held_items(s1.inventories, target.0).contains(x) by {
                        assert(loot_set(s1, target).contains(x));
                    }
                }
                if result is Ok {
                    let mid = choose|mid: Map<u64, Inventory>|
                        inventory_lost(before.inventories, mid, target.0, item) && inventory_gained(
                            mid,
                            self@.inventories,
                            attacker.0,
                            item,
                        );
                    lemma_loot_step(s1.inventories, before.inventories, mid, self@.inventories, target.0, attacker.0, looted, item);
                    let l2 = looted.insert(item);
                    assert(loot_set(s1, target).contains(item));
                    let ev = SimulationEvent::ItemTransferred { item: ItemId(item), from: target, to: attacker };
                    assert(events@ == events_before.push(ev));
                    assert forall|x: u64| #[trigger] l2.contains(x) implies exists|k: int|
                        base2.len() <= k < events@.len() && events@[k] == (SimulationEvent::ItemTransferred {
                            item: ItemId(x),
                            from: target,
                            to: attacker,
                        }) by {
                        if x == item {
                            assert(events@[events@.len() - 1] == ev);
                        } else {
                            let k = choose|k: int|
                                base2.len() <= k < events_before.len() && events_before[k] == (SimulationEvent::ItemTransferred {
                                    item: ItemId(x),
                                    from: target,
                                    to: attacker,
                                });
                            assert(events@[k] == events_before[k]);
                        }
                    }
                    assert forall|k: int|
                        base2.len() <= k < events@.len() && (#[trigger] events@[k]) is ItemTransferred implies l2.contains(
                        events@[k]->ItemTransferred_item.0,
                    ) by {
                        if k < events_before.len() {
                            assert(events@[k] == events_before[k]);
                        }
                    }
                    assert forall|k: int| base2.len() <= k < events@.len() implies reward_event(s1, attacker, target, #[trigger] events@[k]) by {
                        if k < events_before.len() {
                            assert(events@[k] == events_before[k]);
                        }
                    }
                    assert forall|x: u64| #[trigger] l2.contains(x) implies exists|j: int| 0 <= j < i + 1 && loot@[j] == x by {
                        if x == item {
                            assert(loot@[i as int] == x);
                        } else {
                            let j = choose|j: int| 0 <= j < i && loot@[j] == x;
                            assert(loot@[j] == x);
                        }
                    }
                    assert forall|j: int| i + 1 <= j < loot@.len() implies carries(self@, target.0, #[trigger] loot@[j]) by {
                        assert(loot@[j] != item);
                        assert(carries(before, target.0, loot@[j]));
                    }
                    looted = l2;
                } else {
                    assert(events@ == events_before);
                    if ready {
                        assert(!s1.items.contains_key(item));
                    }
                    assert forall|x: u64| #[trigger] looted.contains(x) implies exists|j: int| 0 <= j < i + 1 && loot@[j] == x by {
                        let j = choose|j: int| 0 <= j < i && loot@[j] == x;
                        assert(loot@[j] == x);
                    }
                }
            }
            i = i + 1;
        }
        proof {
            assert(s1.inventories == s0.inventories);
            assert(events@.subrange(0, base.len() as int) =~= base);
            assert forall|k: int| base.len() <= k < events@.len() implies reward_event(s0, attacker, target, #[trigger] events@[k]) by {
                if k < base2.len() {
                    assert(events@[k] == base2[k]);
                    assert(base2[k] == experience_notices(s0, reward)[k - base.len()]);
                }
            }
            assert forall|k: int|
                base.len() <= k < events@.len() && (#[trigger] events@[k]) is ItemTransferred implies looted.contains(
                events@[k]->ItemTransferred_item.0,
            ) by {
                if k < base2.len() {
                    assert(events@[k] == base2[k]);
                    assert(base2[k] == experience_notices(s0, reward)[k - base.len()]);
                    assert(reward_event(s0, attacker, target, base2[k]));
                }
            }
            if rewarded(s0, attacker, target, base) {
                assert forall|x: u64| loot_set(s0, target).contains(x) implies looted.contains(x) by {
                    assert(loot@.to_set().contains(x));
                    let j = choose|j: int| 0 <= j < loot@.len() && loot@[j] == x;
                    assert(s1.items.contains_key(loot@[j]));
                }
                assert(looted =~= loot_set(s0, target));
            }
            assert(loot_taken(s0, self@.inventories, attacker, target, base, looted));
            assert(loot_announced(base, events@, looted, attacker, target));
        }
    }
}

/// The events of earning experience are all rewards of a defeat.
proof fn lemma_experience_rewards(s: SimState, amount: u32, t: SimState, attacker: EntityId, target: EntityId)
    ensures
        forall|i: int|
            0 <= i < experience_notices(s, amount).len() ==> reward_event(
                t,
                attacker,
                target,
                #[trigger] experience_notices(s, amount)[i],
            ),
{
    if amount != 0 {
        let p = s.progression;
        let experience = p.experience.saturating_add(amount);
        let level = level_target(p.level, experience);
        let player = s.player.0;
        let tail = level_notices(
            p.level,
            p.attack_bonus,
            s.combatants[player].max_health,
            s.combatants.contains_key(player),
            (level - p.level) as nat,
        );
        let n = experience_notices(s, amount);
        assert forall|i: int| 0 <= i < n.len() implies reward_event(t, attacker, target, #[trigger] n[i]) by {
            if i > 0 {
                assert(n[i] == tail[i - 1]);
            }
        }
    }
}


/// The two combatants are not on one map layer within one step of each other.
pub open spec fn beyond_reach(s: SimState, attacker: u64, target: u64) -> bool {
    let a = s.entities[attacker].position;
    let t = s.entities[target].position;
    a.map != t.map || a.grid.z != t.grid.z || taxicab_distance(a.grid, t.grid) > 1
}

/// The state just before a shot lands: one unit of the ammunition used up.
pub open spec fn ammunition_spent(s: SimState, ammunition: ItemId) -> SimState {
    SimState { items: s.items.insert(ammunition.0, one_unit_consumed(s.items[ammunition.0])), ..s }
}

impl Simulation {
    fn melee_weapon_damage_exec(&self, owner: EntityId) -> (damage: i16)
        ensures
            damage == melee_weapon_damage(self@, owner.0),
    {
        let weapon = match self.inventories.get(&owner.0) {
            None => {
                return 1;
            },
            Some(inventory) => match inventory.equipped_melee {
                None => {
                    return 1;
                },
                Some(w) => w,
            },
        };
        match self.items.get(&weapon.0) {
            None => 1,
            Some(it) => match it.kind {
                ItemKind::MeleeWeapon { damage } => damage,
                _ => 1,
            },
        }
    }

    /// The aftermath every landed attack shares: defeat rewards and quest progress.
    fn finish_attack(&mut self, attacker: EntityId, target: EntityId, events: &mut Vec<SimulationEvent>)
        requires
            old(self).wf(),
        ensures
            final(self).wf(),
            final(self)@.player == old(self)@.player,
            final(self)@.tick == old(self)@.tick.saturating_add(1),
            final(self)@.entities == old(self)@.entities,
            final(self)@.maps == old(self)@.maps,
            final(self)@.items == old(self)@.items,
            final(self)@.progression == (CharacterProgression {
                level: final(self)@.progression.level,
                experience: final(self)@.progression.experience,
                attack_bonus: final(self)@.progression.attack_bonus,
                ..old(self)@.progression
            }),
            (exists|i: int|
                0 <= i < old(events)@.len() && old(events)@[i] == (SimulationEvent::Defeated {
                    entity: target,
                    by: attacker,
                })) && attacker == old(self)@.player ==> final(self)@.progression == after_experience(
                old(self)@,
                defeat_reward(old(self)@, target),
            ).progression && final(self)@.combatants == after_experience(old(self)@, defeat_reward(old(self)@, target)).combatants,
            !((exists|i: int|
                0 <= i < old(events)@.len() && old(events)@[i] == (SimulationEvent::Defeated {
                    entity: target,
                    by: attacker,
                })) && attacker == old(self)@.player) ==> final(self)@.progression == old(self)@.progression
                && final(self)@.combatants == old(self)@.combatants,
            final(self)@.combatants.dom() == old(self)@.combatants.dom(),
            forall|k: u64| k != old(self)@.player.0 && #[trigger] old(self)@.combatants.contains_key(k)
                ==> final(self)@.combatants[k] == old(self)@.combatants[k],
                    final(events)@.len() >= old(events)@.len(),
                    final(events)@.subrange(0, old(events)@.len() as int) == old(events)@,
                    final(self)@ == (SimState {
                        progression: final(self)@.progression,
                        combatants: final(self)@.combatants,
                        inventories: final(self)@.inventories,
                        quests: final(self)@.quests,
                        tick: final(self)@.tick,
                        ..old(self)@
                    }),
                    final(self)@.quests.dom() == old(self)@.quests.dom(),
                    exists|looted: Set<u64>|
                        loot_taken(old(self)@, final(self)@.inventories, attacker, target, old(events)@, looted) && forall|k: u64|
                            #[trigger] old(self)@.quests.contains_key(k) ==> quest_advanced_with(
                                old(self)@.quests[k],
                                final(self)@.quests[k],
                                old(events)@,
                                looted,
                                old(self)@.player,
                            ),
                    forall|i: int|
                        old(events)@.len() <= i < final(events)@.len() ==> reward_event(
                            old(self)@,
                            attacker,
                            target,
                            #[trigger] final(events)@[i],
                        ) || quest_notice(final(events)@[i]),
            {
                let ghost s0 = self@;
                let ghost base = events@;
                self.resolve_defeat_rewards(attacker, target, events);
                let ghost s1 = self@;
                let ghost mid = events@;
                let ghost looted = choose|looted: Set<u64>|
                    loot_taken(s0, s1.inventories, attacker, target, base, looted) && loot_announced(
                        base,
                        mid,
                        looted,
                        attacker,
                        target,
                    );
                self.advance_quests_from_events(events);
                proof {
                    assert(events@.subrange(0, mid.len() as int) == mid);
                    assert(events@.subrange(0, base.len() as int) =~= mid.subrange(0, base.len() as int));
                    assert forall|k: u64| #[trigger] s0.quests.contains_key(k) implies quest_advanced_with(
                        s0.quests[k],
                        self@.quests[k],
                        base,
                        looted,
                        s0.player,
                    ) by {
                        lemma_quest_over_rewards(s0, attacker, target, base, mid, looted, s0.quests[k], self@.quests[k]);
                    }
                    assert forall|i: int| base.len() <= i < events@.len() implies reward_event(
                        s0,
                        attacker,
                        target,
                        #[trigger] events@[i],
                    ) || quest_notice(events@[i]) by {
                        if i < mid.len() {
                            assert(events@[i] == mid[i]);
                        }
                    }
                }
        self.tick = self.tick.saturating_add(1);
    }

    fn resolve_melee(&mut self, attacker: EntityId, target: EntityId) -> (outcome: CommandOutcome)
        requires
            old(self).wf(),
        ensures
            final(self).wf(),
            final(self)@.player == old(self)@.player,
            melee_settled(old(self)@, attacker, target, final(self)@, outcome),
    {
        let (a, t) = match self.combat_positions(attacker, target) {
            None => {
                return failed(ActionFailure::InvalidTarget);
            },
            Some(p) => p,
        };
        if a.map != t.map || a.grid.z != t.grid.z || !taxicab_within(a.grid, t.grid, 1) {
            return failed(ActionFailure::OutOfRange);
        }
        let weapon = self.melee_weapon_damage_exec(attacker);
        let raw = if attacker.0 == self.player.0 {
            add_clamped(weapon, self.progression.attack_bonus)
        } else {
            weapon
        };
        let ghost s0 = self@;
        let mut events: Vec<SimulationEvent> = Vec::new();
        self.deal_damage(attacker, target, raw, CombatMethod::Melee, &mut events);
        let ghost notices = events@;
        if attacker.0 == self.player.0 {
            self.progression.martial_practice = self.progression.martial_practice.saturating_add(1);
        }
        let ghost s1 = self@;
        proof {
            assert(notices =~= Seq::<SimulationEvent>::empty() + damage_notices(s0, attacker, target, raw, CombatMethod::Melee));
            lemma_defeat_announced(Seq::empty(), s0, attacker, target, raw, CombatMethod::Melee);
            assert(defeat_reward(s1, target) == defeat_reward(s0, target));
        }
        self.finish_attack(attacker, target, &mut events);
        proof {
            assert(notices =~= Seq::<SimulationEvent>::empty() + damage_notices(s0, attacker, target, raw, CombatMethod::Melee));
            reveal(blow_landed);
            let landed = blow_state(s0, s0, attacker, target, raw, CombatMethod::Melee);
            assert(s1 == landed);
            let looted = choose|looted: Set<u64>|
                loot_taken(s1, self@.inventories, attacker, target, notices, looted) && forall|k: u64|
                    #[trigger] s1.quests.contains_key(k) ==> quest_advanced_with(
                        s1.quests[k],
                        self@.quests[k],
                        notices,
                        looted,
                        s1.player,
                    );
            assert(s1.quests == s0.quests);
            assert(loot_taken(landed, self@.inventories, attacker, target, notices, looted));
            assert(events@.subrange(0, 0) =~= Seq::<SimulationEvent>::empty());
            if target != s0.player {
                assert(s1.combatants.contains_key(target.0));
            }
            assert(s1.combatants.dom() =~= s0.combatants.dom());
            assert forall|k: u64| k != target.0 && k != s0.player.0 && #[trigger] s0.combatants.contains_key(k) implies self@.combatants[k]
                == s0.combatants[k] by {
                assert(s1.combatants.contains_key(k));
                assert(s1.combatants[k] == s0.combatants[k]);
            }
        }
        CommandOutcome { advanced_time: true, changed_world: true, events }
    }

    #[verifier::spinoff_prover]
    #[verifier::rlimit(60)]
    fn resolve_ranged(&mut self, attacker: EntityId, target: EntityId) -> (outcome: CommandOutcome)
        requires
            old(self).wf(),
        ensures
            final(self).wf(),
            final(self)@.player == old(self)@.player,
            ranged_settled(old(self)@, attacker, target, final(self)@, outcome),
    {
        let (damage, ammunition) = match self.ranged_attack_plan(attacker, target) {
            Ok(plan) => plan,
            Err(reason) => {
                return failed(reason);
            },
        };
        let raw = if attacker.0 == self.player.0 {
            add_clamped(damage, self.progression.attack_bonus)
        } else {
            damage
        };
        let ghost s0 = self@;
        let mut used = match self.items.remove(&ammunition.0) {
            None => {
                return failed(ActionFailure::NoAmmunition);
            },
            Some(it) => it,
        };
        consume_one_unit(&mut used);
        let remaining = used.quantity;
        proof {
            lemma_wf_item_update(s0, ammunition.0, used);
        }
        self.items.insert(ammunition.0, used);
        assert(self@ =~= ammunition_spent(s0, ammunition));
        let ghost spent = self@;
        let mut events = single_event(SimulationEvent::ItemConsumed { owner: attacker, item: ammunition, remaining });
        let ghost prefix = events@;
        self.deal_damage(attacker, target, raw, CombatMethod::Ranged, &mut events);
        if attacker.0 == self.player.0 {
            self.progression.ranged_practice = self.progression.ranged_practice.saturating_add(1);
        }
        let ghost s1 = self@;
        let ghost landed = events@;
        proof {
            assert(forall|i: int| 0 <= i < prefix.len() ==> !(#[trigger] prefix[i] is Defeated));
            lemma_defeat_announced(prefix, spent, attacker, target, raw, CombatMethod::Ranged);
            assert(defeat_reward(s1, target) == defeat_reward(spent, target));
        }
        self.finish_attack(attacker, target, &mut events);
        proof {
            let notices = damage_notices(spent, attacker, target, raw, CombatMethod::Ranged);
            assert(landed == prefix + notices);
            reveal(blow_landed);
            let landed_state = blow_state(s0, spent, attacker, target, raw, CombatMethod::Ranged);
            assert(s1 == landed_state);
            let looted = choose|looted: Set<u64>|
                loot_taken(s1, self@.inventories, attacker, target, landed, looted) && forall|k: u64|
                    #[trigger] s1.quests.contains_key(k) ==> quest_advanced_with(
                        s1.quests[k],
                        self@.quests[k],
                        landed,
                        looted,
                        s1.player,
                    );
            assert(s1.quests == s0.quests);
            assert(loot_taken(landed_state, self@.inventories, attacker, target, prefix + notices, looted));
            assert(forall|k: u64|
                #[trigger] s0.quests.contains_key(k) ==> quest_advanced_with(
                    s0.quests[k],
                    self@.quests[k],
                    prefix + notices,
                    looted,
                    s0.player,
                ));
            assert forall|i: int| prefix.len() + notices.len() <= i < events@.len() implies reward_event(
                landed_state,
                attacker,
                target,
                    #[trigger] events@[i],
                ) || quest_notice(events@[i]) by {}
                assert(self@ == (SimState {
                    tick: self@.tick,
                    progression: self@.progression,
                    combatants: self@.combatants,
                    inventories: self@.inventories,
                    quests: self@.quests,
                    ..landed_state
                }));
                assert(self@.quests.dom() == s0.quests.dom());
                assert(loot_taken(landed_state, self@.inventories, attacker, target, prefix + notices, looted) && forall|k: u64|
                    #[trigger] s0.quests.contains_key(k) ==> quest_advanced_with(
                        s0.quests[k],
                        self@.quests[k],
                        prefix + notices,
                        looted,
                        s0.player,
                    ));
            assert(events@.subrange(0, landed.len() as int) == landed);
            assert(events@.subrange(0, 1) =~= landed.subrange(0, 1));
            assert(landed.subrange(0, 1) =~= prefix);
            assert(events@.subrange(1, (1 + notices.len()) as int) =~= landed.subrange(1, landed.len() as int));
            assert(landed.subrange(1, landed.len() as int) =~= notices);
            if target != s0.player {
                assert(s1.combatants.contains_key(target.0));
            }
            assert(s1.combatants.dom() =~= s0.combatants.dom());
            assert forall|k: u64| k != target.0 && k != s0.player.0 && #[trigger] s0.combatants.contains_key(k) implies self@.combatants[k]
                == s0.combatants[k] by {
                assert(s1.combatants.contains_key(k));
                assert(s1.combatants[k] == s0.combatants[k]);
            }
        }
        let outcome = CommandOutcome { advanced_time: true, changed_world: true, events };
        proof {
            assert(blow_landed(s0, spent, self@, outcome, attacker, target, raw, CombatMethod::Ranged, prefix));
        }
        outcome
    }
}


/// Water or ocean lies at (`x`, `y`) on `map`'s layer `z`.
pub open spec fn water_at(s: SimState, map: MapId, x: int, y: int, z: i16) -> bool {
    &&& i32::MIN <= x <= i32::MAX
    &&& i32::MIN <= y <= i32::MAX
    &&& s.maps.contains_key(map.0)
    &&& s.maps[map.0].cell_at(GridPos { x: x as i32, y: y as i32, z }) is Some
    &&& {
        let t = s.maps[map.0].cell_at(GridPos { x: x as i32, y: y as i32, z }).unwrap().terrain;
        t == TerrainKind::Water || t == TerrainKind::Ocean
    }
}

/// A usable reagent of `material` the player carries.
pub open spec fn is_reagent_for(s: SimState, material: MaterialKind, item: u64) -> bool {
    &&& carries(s, s.player.0, item)
    &&& s.items.contains_key(item)
    &&& s.items[item].quantity > 0
    &&& s.items[item].kind == (ItemKind::Reagent { material })
}

/// Whether the world currently meets a formula's condition: water at or
/// beside the player, daylight or night on the surface (a day is 24 ticks,
/// the first twelve light), or a carried emberseed.
pub open spec fn condition_met(s: SimState, condition: FormulaCondition) -> bool {
    let p = player_position(s);
    match condition {
        FormulaCondition::CleanWater => {
            ||| water_at(s, p.map, p.grid.x as int, p.grid.y as int, p.grid.z)
            ||| water_at(s, p.map, p.grid.x + 1, p.grid.y as int, p.grid.z)
            ||| water_at(s, p.map, p.grid.x - 1, p.grid.y as int, p.grid.z)
            ||| water_at(s, p.map, p.grid.x as int, p.grid.y + 1, p.grid.z)
            ||| water_at(s, p.map, p.grid.x as int, p.grid.y - 1, p.grid.z)
        },
        FormulaCondition::DirectSunlight => p.grid.z == 0 && s.tick % 24 < 12,
        FormulaCondition::NightSky => p.grid.z == 0 && s.tick % 24 >= 12,
        FormulaCondition::ExistingFlame => exists|i: u64| is_reagent_for(s, MaterialKind::Emberseed, i),
    }
}

/// The material of a carried-or-not item usable as a reagent.
pub open spec fn reagent_material(s: SimState, item: u64) -> Option<MaterialKind> {
    if s.items.contains_key(item) && s.items[item].quantity > 0 {
        match s.items[item].kind {
            ItemKind::Reagent { material } => Some(material),
            _ => None,
        }
    } else {
        None
    }
}

/// The formula's reagents, as a set, are exactly the two materials.
pub open spec fn reagents_are(rule: FormulaRule, first: MaterialKind, second: MaterialKind) -> bool {
    rule.reagents@.to_set() == set![first, second]
}

/// The first formula of the world, from index `from` on, whose reagents are
/// the two materials and whose condition holds now.
pub open spec fn formula_search(s: SimState, first: MaterialKind, second: MaterialKind, from: int) -> Option<int>
    decreases s.rules.formulas@.len() - from,
{
    if from < 0 || from >= s.rules.formulas@.len() {
        None
    } else if reagents_are(s.rules.formulas@[from], first, second) && condition_met(
        s,
        s.rules.formulas@[from].condition,
    ) {
        Some(from)
    } else {
        formula_search(s, first, second, from + 1)
    }
}

/// The first formula of the world whose reagents are the two materials and
/// whose condition holds now.
pub open spec fn discovered_formula(s: SimState, first: MaterialKind, second: MaterialKind) -> Option<int> {
    formula_search(s, first, second, 0)
}

proof fn lemma_formula_search(s: SimState, first: MaterialKind, second: MaterialKind, from: int)
    requires
        0 <= from,
    ensures
        formula_search(s, first, second, from) is Some ==> {
            let i = formula_search(s, first, second, from).unwrap();
            from <= i < s.rules.formulas@.len()
        },
    decreases s.rules.formulas@.len() - from,
{
    if from < s.rules.formulas@.len() {
        lemma_formula_search(s, first, second, from + 1);
    }
}

/// Combining two distinct carried reagents: both lose a unit, a tick passes,
/// and a formula of the world whose reagents they are and whose condition
/// holds is learned (once, with thirty experience); otherwise the experiment fails.
pub open spec fn experiment_result(s: SimState, first: ItemId, second: ItemId) -> (SimState, Outcome) {
    if first == second {
        refusal(s, ActionFailure::ExperimentFailed)
    } else if !carries(s, s.player.0, first.0) || !carries(s, s.player.0, second.0) {
        refusal(s, ActionFailure::ItemNotCarried)
    } else if reagent_material(s, first.0) is None || reagent_material(s, second.0) is None {
        refusal(s, ActionFailure::ItemCannotBeUsed)
    } else {
        let m1 = reagent_material(s, first.0).unwrap();
        let m2 = reagent_material(s, second.0).unwrap();
        let found = discovered_formula(s, m1, m2);
        let used1 = one_unit_consumed(s.items[first.0]);
        let used2 = one_unit_consumed(s.items[second.0]);
        let spent = SimState {
            items: s.items.insert(first.0, used1).insert(second.0, used2),
            tick: s.tick.saturating_add(1),
            ..s
        };
        let consumed = seq![
            SimulationEvent::ItemConsumed { owner: s.player, item: first, remaining: used1.quantity },
            SimulationEvent::ItemConsumed { owner: s.player, item: second, remaining: used2.quantity },
        ];
        match found {
            None => (
                spent,
                Outcome {
                    advanced_time: true,
                    changed_world: true,
                    events: consumed.push(SimulationEvent::ActionFailed(ActionFailure::ExperimentFailed)),
                },
            ),
            Some(i) => {
                let id = s.rules.formulas@[i].id;
                if spent.known_formulas.contains(id.0) {
                    (spent, Outcome { advanced_time: true, changed_world: true, events: consumed })
                } else {
                    let learned = SimState {
                        known_formulas: spent.known_formulas.insert(id.0),
                        progression: CharacterProgression {
                            discoveries: spent.progression.discoveries.saturating_add(1),
                            arcane_lore: spent.progression.arcane_lore.saturating_add(1),
                            magical_practice: spent.progression.magical_practice.saturating_add(1),
                            ..spent.progression
                        },
                        ..spent
                    };
                    (
                        after_experience(learned, 30),
                        Outcome {
                            advanced_time: true,
                            changed_world: true,
                            events: consumed.push(SimulationEvent::FormulaLearned { formula: id, source: first })
                                + experience_notices(learned, 30),
                        },
                    )
                }
            },
        }
    }
}

impl Simulation {
    fn water_at_exec(&self, map: MapId, x: i64, y: i64, z: i16) -> (wet: bool)
        ensures
            wet == water_at(self@, map, x as int, y as int, z),
    {
        if x < i32::MIN as i64 || x > i32::MAX as i64 || y < i32::MIN as i64 || y > i32::MAX as i64 {
            return false;
        }
        match self.maps.get(&map.0) {
            None => false,
            Some(m) => match m.cell(GridPos { x: x as i32, y: y as i32, z }) {
                None => false,
                Some(cell) => cell.terrain == TerrainKind::Water || cell.terrain == TerrainKind::Ocean,
            },
        }
    }

    /// The lowest-numbered usable reagent of `material` the player carries.
    fn find_reagent(&self, material: MaterialKind) -> (found: Option<ItemId>)
        ensures
            found is Some ==> is_reagent_for(self@, material, found.unwrap().0) && forall|j: u64|
                is_reagent_for(self@, material, j) ==> found.unwrap().0 <= j,
            found is None ==> forall|j: u64| !is_reagent_for(self@, material, j),
    {
        let inventory = match self.inventories.get(&self.player.0) {
            None => {
                return None;
            },
            Some(inventory) => inventory,
        };
        let members = set_members(&inventory.items);
        let mut i: usize = 0;
        while i < members.len()
            invariant
                i <= members@.len(),
                members@.to_set() == self@.inventories[self@.player.0].items@,
                strictly_increasing(members@),
                self@.inventories.contains_key(self@.player.0),
                forall|j: int| 0 <= j < i ==> !is_reagent_for(self@, material, #[trigger] members@[j]),
            decreases members@.len() - i,
        {
            let id = members[i];
            let usable = match self.items.get(&id) {
                None => false,
                Some(it) => it.quantity > 0 && it.kind == (ItemKind::Reagent { material }),
            };
            if usable {
                proof {
                    assert(members@.to_set().contains(id));
                    assert forall|j: u64| is_reagent_for(self@, material, j) implies id <= j by {
                        assert(members@.to_set().contains(j));
                        let jj = choose|jj: int| 0 <= jj < members@.len() && members@[jj] == j;
                        if jj < i {
                            assert(!is_reagent_for(self@, material, members@[jj]));
                        } else if jj > i {
                            assert(members@[i as int] < members@[jj]);
                        }
                    }
                }
                return Some(ItemId(id));
            }
            i = i + 1;
        }
        proof {
            assert forall|j: u64| !is_reagent_for(self@, material, j) by {
                if is_reagent_for(self@, material, j) {
                    assert(members@.to_set().contains(j));
                    let jj = choose|jj: int| 0 <= jj < members@.len() && members@[jj] == j;
                    assert(!is_reagent_for(self@, material, members@[jj]));
                }
            }
        }
        None
    }

    fn magical_condition_met(&self, condition: FormulaCondition) -> (met: bool)
        requires
            self.wf(),
        ensures
            met == condition_met(self@, condition),
    {
        let p = match self.entities.get(&self.player.0) {
            None => {
                return false;
            },
            Some(e) => e.position,
        };
        let x = p.grid.x as i64;
        let y = p.grid.y as i64;
        let z = p.grid.z;
        match condition {
            FormulaCondition::CleanWater => {
                self.water_at_exec(p.map, x, y, z) || self.water_at_exec(p.map, x + 1, y, z) || self.water_at_exec(
                    p.map,
                    x - 1,
                    y,
                    z,
                ) || self.water_at_exec(p.map, x, y + 1, z) || self.water_at_exec(p.map, x, y - 1, z)
            },
            FormulaCondition::DirectSunlight => z == 0 && self.tick % 24 < 12,
            FormulaCondition::NightSky => z == 0 && self.tick % 24 >= 12,
            FormulaCondition::ExistingFlame => self.find_reagent(MaterialKind::Emberseed).is_some(),
        }
    }

    fn reagent_of(&self, item: ItemId) -> (material: Option<MaterialKind>)
        ensures
            material == reagent_material(self@, item.0),
    {
        match self.items.get(&item.0) {
            None => None,
            Some(it) => {
                if it.quantity == 0 {
                    return None;
                }
                match it.kind {
                    ItemKind::Reagent { material } => Some(material),
                    _ => None,
                }
            },
        }
    }

    fn formula_matches(rule: &FormulaRule, first: MaterialKind, second: MaterialKind) -> (matches: bool)
        ensures
            matches == reagents_are(*rule, first, second),
    {
        let mut saw_first = false;
        let mut saw_second = false;
        let mut i: usize = 0;
        while i < rule.reagents.len()
            invariant
                i <= rule.reagents@.len(),
                saw_first == exists|j: int| 0 <= j < i && rule.reagents@[j] == first,
                saw_second == exists|j: int| 0 <= j < i && rule.reagents@[j] == second,
                forall|j: int| 0 <= j < i ==> (#[trigger] rule.reagents@[j] == first || rule.reagents@[j] == second),
            decreases rule.reagents@.len() - i,
        {
            let m = rule.reagents[i];
            if m != first && m != second {
                proof {
                    assert(rule.reagents@.to_set().contains(m));
                    assert(!set![first, second].contains(m));
                }
                return false;
            }
            if m == first {
                saw_first = true;
            }
            if m == second {
                saw_second = true;
            }
            i = i + 1;
        }
        proof {
            if saw_first && saw_second {
                assert forall|m: MaterialKind| rule.reagents@.to_set().contains(m) == set![first, second].contains(m) by {
                    if set![first, second].contains(m) {
                        if m == first {
                            let j = choose|j: int| 0 <= j < i && rule.reagents@[j] == first;
                            assert(rule.reagents@.contains(m));
                        } else {
                            let j = choose|j: int| 0 <= j < i && rule.reagents@[j] == second;
                            assert(rule.reagents@.contains(m));
                        }
                    }
                }
                assert(rule.reagents@.to_set() =~= set![first, second]);
            } else if !saw_first {
                assert(!rule.reagents@.to_set().contains(first));
                assert(set![first, second].contains(first));
            } else {
                assert(!rule.reagents@.to_set().contains(second));
                assert(set![first, second].contains(second));
            }
        }
        saw_first && saw_second
    }

    fn find_discovered_formula(&self, first: MaterialKind, second: MaterialKind) -> (found: Option<usize>)
        requires
            self.wf(),
        ensures
            (discovered_formula(self@, first, second) is None) == (found is None),
            found is Some ==> discovered_formula(self@, first, second) == Some(found.unwrap() as int),
    {
        let n = self.rules.formulas.len();
        let mut i: usize = 0;
        while i < n
            invariant
                self.wf(),
                n == self@.rules.formulas@.len(),
                i <= n,
                formula_search(self@, first, second, 0) == formula_search(self@, first, second, i as int),
            decreases n - i,
        {
            let rule = &self.rules.formulas[i];
            if Self::formula_matches(rule, first, second) && self.magical_condition_met(rule.condition) {
                return Some(i);
            }
            i = i + 1;
        }
        None
    }

    #[verifier::spinoff_prover]
    #[verifier::rlimit(60)]
    fn resolve_experiment(&mut self, first: ItemId, second: ItemId) -> (outcome: CommandOutcome)
        requires
            old(self).wf(),
        ensures
            final(self).wf(),
            (final(self)@, outcome_of(outcome)) == experiment_result(old(self)@, first, second),
    {
        if first.0 == second.0 {
            return failed(ActionFailure::ExperimentFailed);
        }
        if !self.player_carries(first) || !self.player_carries(second) {
            return failed(ActionFailure::ItemNotCarried);
        }
        let m1 = match self.reagent_of(first) {
            None => {
                return failed(ActionFailure::ItemCannotBeUsed);
            },
            Some(m) => m,
        };
        let m2 = match self.reagent_of(second) {
            None => {
                return failed(ActionFailure::ItemCannotBeUsed);
            },
            Some(m) => m,
        };
        let found = self.find_discovered_formula(m1, m2);
        let ghost s0 = self@;
        proof {
            lemma_formula_search(s0, m1, m2, 0);
        }
        let mut used1 = match self.items.remove(&first.0) {
            None => {
                return failed(ActionFailure::ItemCannotBeUsed);
            },
            Some(it) => it,
        };
        consume_one_unit(&mut used1);
        let remaining1 = used1.quantity;
        proof {
            lemma_wf_item_update(s0, first.0, used1);
        }
        self.items.insert(first.0, used1);
        let ghost s1 = self@;
        let mut used2 = match self.items.remove(&second.0) {
            None => {
                return failed(ActionFailure::ItemCannotBeUsed);
            },
            Some(it) => it,
        };
        consume_one_unit(&mut used2);
        let remaining2 = used2.quantity;
        proof {
            lemma_wf_item_update(s1, second.0, used2);
        }
        self.items.insert(second.0, used2);
        self.tick = self.tick.saturating_add(1);
        let mut events: Vec<SimulationEvent> = Vec::new();
        events.push(SimulationEvent::ItemConsumed { owner: self.player, item: first, remaining: remaining1 });
        events.push(SimulationEvent::ItemConsumed { owner: self.player, item: second, remaining: remaining2 });
        let ghost spent = self@;
        let index = match found {
            None => {
                events.push(SimulationEvent::ActionFailed(ActionFailure::ExperimentFailed));
                let outcome = CommandOutcome { advanced_time: true, changed_world: true, events };
                assert(outcome_of(outcome).events =~= experiment_result(s0, first, second).1.events);
                return outcome;
            },
            Some(i) => i,
        };
        let id = self.rules.formulas[index].id;
        proof {
            assert(discovered_formula(s0, m1, m2) == Some(index as int));
            assert(s0.rules.formulas@[index as int].id == id);
            assert(reagent_material(s0, first.0) == Some(m1));
            assert(reagent_material(s0, second.0) == Some(m2));
            assert(events@ =~= seq![
                SimulationEvent::ItemConsumed { owner: s0.player, item: first, remaining: one_unit_consumed(s0.items[first.0]).quantity },
                SimulationEvent::ItemConsumed { owner: s0.player, item: second, remaining: one_unit_consumed(s0.items[second.0]).quantity },
            ]);
        }
        if self.known_formulas.contains(&id.0) {
            let outcome = CommandOutcome { advanced_time: true, changed_world: true, events };
            assert(outcome_of(outcome).events =~= experiment_result(s0, first, second).1.events);
            assert(self@ =~= experiment_result(s0, first, second).0);
            return outcome;
        }
        self.known_formulas.insert(id.0);
        self.progression.discoveries = self.progression.discoveries.saturating_add(1);
        self.progression.arcane_lore = self.progression.arcane_lore.saturating_add(1);
        self.progression.magical_practice = self.progression.magical_practice.saturating_add(1);
        events.push(SimulationEvent::FormulaLearned { formula: id, source: first });
        let ghost learned = self@;
        let ghost pushed = events@;
        self.grant_experience(30, &mut events);
        proof {
            let expected = experiment_result(s0, first, second);
            assert(learned =~= SimState {
                known_formulas: spent.known_formulas.insert(id.0),
                progression: CharacterProgression {
                    discoveries: spent.progression.discoveries.saturating_add(1),
                    arcane_lore: spent.progression.arcane_lore.saturating_add(1),
                    magical_practice: spent.progression.magical_practice.saturating_add(1),
                    ..spent.progression
                },
                ..spent
            });
            assert(spent =~= SimState {
                items: s0.items.insert(first.0, one_unit_consumed(s0.items[first.0])).insert(
                    second.0,
                    one_unit_consumed(s0.items[second.0]),
                ),
                tick: s0.tick.saturating_add(1),
                ..s0
            });
        }
        let outcome = CommandOutcome { advanced_time: true, changed_world: true, events };
        assert(outcome_of(outcome).events =~= experiment_result(s0, first, second).1.events);
        outcome
    }
}


/// The first of `materials`, from index `from` on, for which the player
/// carries no usable reagent.
pub open spec fn missing_reagent(s: SimState, materials: Seq<MaterialKind>, from: int) -> Option<MaterialKind>
    decreases materials.len() - from,
{
    if from < 0 || from >= materials.len() {
        None
    } else if forall|j: u64| !is_reagent_for(s, materials[from], j) {
        Some(materials[from])
    } else {
        missing_reagent(s, materials, from + 1)
    }
}

/// A `u16` read as the `i16` with the same bits.
pub open spec fn as_signed(v: u16) -> i16 {
    if v <= i16::MAX {
        v as i16
    } else {
        (v - 65536) as i16
    }
}

/// The strength of a kindling spell: its potency plus the caster's arcane lore.
pub open spec fn kindle_strength(s: SimState, potency: u8) -> i16 {
    clamped_sum(potency as i16, as_signed(s.progression.arcane_lore))
}

/// Why the player cannot cast `formula` at `target` now, checked in this order.
pub open spec fn cast_refusal(s: SimState, formula: FormulaId, target: Option<EntityId>) -> Option<ActionFailure> {
    if !s.known_formulas.contains(formula.0) {
        Some(ActionFailure::UnknownFormula)
    } else {
        match first_formula_index(s.rules.formulas@, formula) {
            None => Some(ActionFailure::UnknownFormula),
            Some(i) => {
                let rule = s.rules.formulas@[i];
                if !condition_met(s, rule.condition) {
                    Some(ActionFailure::MagicalConditionUnmet(rule.condition))
                } else if missing_reagent(s, rule.reagents@, 0) is Some {
                    Some(ActionFailure::MissingReagent(missing_reagent(s, rule.reagents@, 0).unwrap()))
                } else {
                    match rule.effect {
                        MagicEffect::Heal => None,
                        MagicEffect::Kindle => match target {
                            None => Some(ActionFailure::InvalidTarget),
                            Some(t) => if !combat_ready(s, s.player.0, t.0) {
                                Some(ActionFailure::InvalidTarget)
                            } else {
                                let a = s.entities[s.player.0].position;
                                let b = s.entities[t.0].position;
                                if a.map != b.map || a.grid.z != b.grid.z || chebyshev_distance(a.grid, b.grid) > 5 {
                                    Some(ActionFailure::OutOfRange)
                                } else if !line_clear(s, a, b) {
                                    Some(ActionFailure::LineBlocked)
                                } else {
                                    None
                                }
                            },
                        },
                    }
                }
            },
        }
    }
}

fn copy_materials(materials: &Vec<MaterialKind>) -> (copy: Vec<MaterialKind>)
    ensures
        copy@ == materials@,
{
    let mut copy: Vec<MaterialKind> = Vec::new();
    let mut i: usize = 0;
    while i < materials.len()
        invariant
            i <= materials@.len(),
            copy@ == materials@.subrange(0, i as int),
        decreases materials@.len() - i,
    {
        copy.push(materials[i]);
        i = i + 1;
        assert(copy@ =~= materials@.subrange(0, i as int));
    }
    assert(materials@.subrange(0, materials@.len() as int) =~= materials@);
    copy
}

impl Simulation {
    #[verifier::spinoff_prover]
    #[verifier::rlimit(60)]
    fn resolve_cast(&mut self, formula: FormulaId, target: Option<EntityId>) -> (outcome: CommandOutcome)
        requires
            old(self).wf(),
        ensures
            final(self).wf(),
            final(self)@.player == old(self)@.player,
            cast_settled(old(self)@, formula, target, final(self)@, outcome),
    {
        if !self.known_formulas.contains(&formula.0) {
            return failed(ActionFailure::UnknownFormula);
        }
        let (condition, effect, potency, materials) = match self.rules.formula(formula) {
            None => {
                return failed(ActionFailure::UnknownFormula);
            },
            Some(rule) => (rule.condition, rule.effect, rule.potency, copy_materials(&rule.reagents)),
        };
        let ghost s0 = self@;
        let ghost rule = s0.rules.formulas@[first_formula_index(s0.rules.formulas@, formula).unwrap()];
        if !self.magical_condition_met(condition) {
            return failed(ActionFailure::MagicalConditionUnmet(condition));
        }
        let mut chosen: Vec<ItemId> = Vec::new();
        let mut m: usize = 0;
        while m < materials.len()
            invariant
                self@ == s0,
                self.wf(),
                materials@ == rule.reagents@,
                m <= materials@.len(),
                chosen@.len() == m,
                missing_reagent(s0, materials@, 0) == missing_reagent(s0, materials@, m as int),
                s0.known_formulas.contains(formula.0),
                first_formula_index(s0.rules.formulas@, formula) is Some,
                rule == s0.rules.formulas@[first_formula_index(s0.rules.formulas@, formula).unwrap()],
                condition_met(s0, rule.condition),
                condition == rule.condition,
                effect == rule.effect,
                potency == rule.potency,
                forall|j: int| 0 <= j < m ==> is_reagent_for(s0, materials@[j], #[trigger] chosen@[j].0),
                forall|j: int| 0 <= j < m ==> #[trigger] chosen@[j].0 == chosen_reagent(s0, materials@[j]),
            decreases materials@.len() - m,
        {
            match self.find_reagent(materials[m]) {
                None => {
                    proof {
                        assert(missing_reagent(s0, materials@, m as int) == Some(materials@[m as int]));
                        assert(s0.known_formulas.contains(formula.0));
                        assert(first_formula_index(s0.rules.formulas@, formula) is Some);
                        assert(condition_met(s0, rule.condition));
                        assert(missing_reagent(s0, rule.reagents@, 0) == Some(materials@[m as int]));
                        assert(cast_refusal(s0, formula, target) == Some(ActionFailure::MissingReagent(materials@[m as int])));
                    }
                    return failed(ActionFailure::MissingReagent(materials[m]));
                },
                Some(item) => {
                    proof {
                        let c = chosen_reagent(s0, materials@[m as int]);
                        assert(is_reagent_for(s0, materials@[m as int], c) && item.0 <= c);
                        assert(c <= item.0);
                    }
                    chosen.push(item);
                },
            }
            m = m + 1;
        }
        let player = self.player;
        let victim = match effect {
            MagicEffect::Heal => player,
            MagicEffect::Kindle => {
                let t = match target {
                    None => {
                        return failed(ActionFailure::InvalidTarget);
                    },
                    Some(t) => t,
                };
                let (a, b) = match self.combat_positions(player, t) {
                    None => {
                        return failed(ActionFailure::InvalidTarget);
                    },
                    Some(p) => p,
                };
                if a.map != b.map || a.grid.z != b.grid.z || !chebyshev_within(a.grid, b.grid, 5) {
                    return failed(ActionFailure::OutOfRange);
                }
                if !self.clear_line(a, b) {
                    return failed(ActionFailure::LineBlocked);
                }
                t
            },
        };
        let mut events: Vec<SimulationEvent> = Vec::new();
        let mut c: usize = 0;
        while c < chosen.len()
            invariant
                self.wf(),
                c <= chosen@.len(),
                events@.len() == c,
                forall|j: int| 0 <= j < c ==> #[trigger] events@[j] is ItemConsumed,
                chosen@.len() == rule.reagents@.len(),
                self@ == (SimState { items: self@.items, ..s0 }),
                self@.items.dom() == s0.items.dom(),
                player == s0.player,
                cast_refusal(s0, formula, target) is None,
                first_formula_index(s0.rules.formulas@, formula) is Some,
                rule == s0.rules.formulas@[first_formula_index(s0.rules.formulas@, formula).unwrap()],
                effect == rule.effect,
                potency == rule.potency,
                effect == MagicEffect::Kindle ==> target == Some(victim),
                materials@ == rule.reagents@,
                forall|j: int| 0 <= j < chosen@.len() ==> #[trigger] chosen@[j].0 == chosen_reagent(s0, materials@[j]),
                self@.items == reagents_spent(s0, materials@, c as int),
            decreases chosen@.len() - c,
        {
            let item = chosen[c];
            let ghost before = self@;
            let remaining = match self.items.remove(&item.0) {
                None => 0,
                Some(it) => {
                    let mut used = it;
                    if used.quantity > 0 {
                        consume_one_unit(&mut used);
                    }
                    let left = used.quantity;
                    proof {
                        lemma_wf_item_update(before, item.0, used);
                    }
                    self.items.insert(item.0, used);
                    proof {
                        assert(self@ =~= SimState { items: before.items.insert(item.0, used), ..before });
                        assert(item.0 == chosen_reagent(s0, materials@[c as int]));
                    }
                    left
                },
            };
            events.push(SimulationEvent::ItemConsumed { owner: player, item, remaining });
            c = c + 1;
        }
        events.push(SimulationEvent::SpellCast { caster: player, formula, effect });
        let ghost spent = self@;
        let ghost cast_at = events@.len() - 1;
        let ghost announced = events@;
        proof {
            assert(missing_reagent(s0, materials@, 0) is None);
            assert(events@[cast_at] == (SimulationEvent::SpellCast { caster: player, formula, effect }));
        }
        match effect {
            MagicEffect::Heal => {
                match self.combatants.get(&player.0) {
                    None => {},
                    Some(current) => {
                        let current = *current;
                        let raised: i32 = current.health as i32 + potency as i32;
                        let health: i16 = if raised > current.max_health as i32 {
                            current.max_health
                        } else {
                            raised as i16
                        };
                        let healed = Combatant { health, ..current };
                        proof {
                            lemma_wf_combatant_update(spent, player.0, healed);
                        }
                        self.combatants.insert(player.0, healed);
                        events.push(SimulationEvent::Healed { entity: player, amount: health - current.health, health });
                    },
                }
            },
            MagicEffect::Kindle => {
                let lore = self.progression.arcane_lore;
                let signed: i16 = if lore <= 32767 {
                    lore as i16
                } else {
                    (lore as i32 - 65536) as i16
                };
                let raw = add_clamped(potency as i16, signed);
                proof {
                    assert(spent.combatants == s0.combatants);
                    assert(raw == kindle_strength(s0, potency));
                }
                self.deal_damage(player, victim, raw, CombatMethod::Magic, &mut events);
                let ghost damaged = self@;
                proof {
                    assert(damaged.combatants[victim.0] == after_damage(s0, victim.0, raw).combatants[victim.0]);
                    assert(damaged.combatants.contains_key(victim.0));
                }
                let ghost e1 = events@;
                self.resolve_defeat_rewards(player, victim, &mut events);
                let ghost e2 = events@;
                let ghost looted = choose|looted: Set<u64>|
                    loot_taken(damaged, self@.inventories, player, victim, e1, looted) && loot_announced(
                        e1,
                        e2,
                        looted,
                        player,
                        victim,
                    );
                self.advance_quests_from_events(&mut events);
                proof {
                    reveal(kindle_landed);
                    let notices = damage_notices(spent, player, victim, raw, CombatMethod::Magic);
                    assert(e1 == announced + notices);
                    assert(events@.subrange(0, e2.len() as int) == e2);
                    assert(events@.subrange(0, e1.len() as int) =~= e1);
                    assert(e1.len() == announced.len() + notices.len());
                    assert forall|j: int| 0 <= j < notices.len() implies #[trigger] events@.subrange(
                        announced.len() as int,
                        e1.len() as int,
                    )[j] == notices[j] by {
                        assert(events@[announced.len() + j] == events@.subrange(0, e1.len() as int)[announced.len() + j]);
                        assert(e1[announced.len() + j] == notices[j]);
                    }
                    assert(events@.subrange(announced.len() as int, e1.len() as int) =~= notices);
                    assert(damaged == after_damage(spent, victim.0, raw));
                    assert(damaged.quests == s0.quests);
                    assert forall|k: u64| #[trigger] s0.quests.contains_key(k) implies quest_advanced_with(
                        s0.quests[k],
                        self@.quests[k],
                        e1,
                        looted,
                        s0.player,
                    ) by {
                        lemma_quest_over_rewards(damaged, player, victim, e1, e2, looted, s0.quests[k], self@.quests[k]);
                    }
                    lemma_defeat_announced(announced, spent, player, victim, raw, CombatMethod::Magic);
                    assert(defeat_reward(damaged, victim) == defeat_reward(spent, victim));
                    assert(kindle_landed(
                        s0,
                        spent,
                        victim,
                        potency,
                        announced.len() as int,
                        self@.inventories,
                        self@.quests,
                        self@.progression,
                        events@,
                    ));
                    assert(e1[cast_at] == announced[cast_at]);
                    assert(e1.subrange(0, e1.len() as int) == e1);
                    assert(e2.subrange(0, e1.len() as int) == e1);
                    assert(e2[cast_at] == e2.subrange(0, e1.len() as int)[cast_at]);
                    assert(events@[cast_at] == events@.subrange(0, e2.len() as int)[cast_at]);
                    assert(events@[cast_at] == announced[cast_at]);
                    assert(events@.len() >= announced.len());
                    if victim != player {
                        assert(self@.combatants[victim.0] == damaged.combatants[victim.0]);
                    }
                }
            },
        }
        proof {
            assert(events@.len() >= announced.len());
            assert(events@.subrange(0, announced.len() as int) == announced ==> events@[cast_at] == announced[cast_at]);
        }
        self.progression.magical_practice = self.progression.magical_practice.saturating_add(1);
        self.tick = self.tick.saturating_add(1);
        let outcome = CommandOutcome { advanced_time: true, changed_world: true, events };
        outcome
    }
}


/// The neighbouring position one step in `direction`, if it stays inside the
/// coordinate range.
pub open spec fn step_from(g: GridPos, direction: Direction) -> Option<GridPos> {
    let (dx, dy) = direction_delta(direction);
    if i32::MIN <= g.x + dx <= i32::MAX && i32::MIN <= g.y + dy <= i32::MAX {
        Some(GridPos { x: (g.x + dx) as i32, y: (g.y + dy) as i32, z: g.z })
    } else {
        None
    }
}

/// A living hostile standing exactly at `grid` on `map`.
pub open spec fn blocks_at(s: SimState, k: u64, map: MapId, grid: GridPos) -> bool {
    living_hostile(s, k) && s.entities[k].position.map == map && s.entities[k].position.grid == grid
}

/// The lowest-numbered living hostile standing at `grid` on `map`.
pub open spec fn first_blocker(s: SimState, map: MapId, grid: GridPos) -> Option<u64> {
    if exists|k: u64| blocks_at(s, k, map, grid) {
        Some(choose|k: u64| blocks_at(s, k, map, grid) && forall|j: u64| blocks_at(s, j, map, grid) ==> k <= j)
    } else {
        None
    }
}

/// The transition that leaves `position` for another map, if any.
pub open spec fn automatic_transition(s: SimState, position: WorldPosition) -> Option<Transition> {
    let key = position_key(position);
    if s.transitions.contains_key(key) && s.transitions[key].from.map != s.transitions[key].to.map {
        Some(s.transitions[key])
    } else {
        None
    }
}

/// `s` with the player standing at `position` facing `facing`.
pub open spec fn player_placed(s: SimState, position: WorldPosition, facing: Direction) -> SimState {
    SimState {
        entities: s.entities.insert(s.player.0, Entity { position, facing, ..s.entities[s.player.0] }),
        ..s
    }
}

/// Walking one step onto open ground: a gate to another map carries the
/// player through at once, a tick passes, and a newly seen map is recorded.
pub open spec fn walk_result(s: SimState, direction: Direction, destination: GridPos) -> (SimState, Outcome) {
    let here = player_position(s);
    let target = WorldPosition { map: here.map, grid: destination };
    let gate = automatic_transition(s, target);
    let arrival = match gate {
        Some(t) => t.to,
        None => target,
    };
    let moved = SimState { tick: s.tick.saturating_add(1), ..player_placed(s, arrival, direction) };
    let traversed = match gate {
        Some(t) => seq![SimulationEvent::Traversed { kind: t.kind, destination: t.to }],
        None => Seq::empty(),
    };
    (
        after_discovery(moved, arrival.map),
        Outcome {
            advanced_time: true,
            changed_world: true,
            events: traversed + discovery_notices(moved, arrival.map),
        },
    )
}

/// Using the transition at the player's position.
pub open spec fn traverse_result(s: SimState) -> (SimState, Outcome) {
    let key = position_key(player_position(s));
    if !s.transitions.contains_key(key) {
        refusal(s, ActionFailure::NoTransition)
    } else {
        let t = s.transitions[key];
        let moved = SimState {
            tick: s.tick.saturating_add(1),
            ..player_placed(s, t.to, s.entities[s.player.0].facing)
        };
        (
            after_discovery(moved, t.to.map),
            Outcome {
                advanced_time: true,
                changed_world: true,
                events: seq![SimulationEvent::Traversed { kind: t.kind, destination: t.to }] + discovery_notices(
                    moved,
                    t.to.map,
                ),
            },
        )
    }
}

/// A quest can be handed in: it is ready and its giver stands within one
/// step of the player on the same map layer.
pub open spec fn turn_in_ready(s: SimState, quest: QuestId) -> bool {
    &&& s.quests.contains_key(quest.0)
    &&& s.entities.contains_key(s.quests[quest.0].giver.0)
    &&& s.quests[quest.0].status == QuestStatus::ReadyToTurnIn
    &&& {
        let p = player_position(s);
        let g = s.entities[s.quests[quest.0].giver.0].position;
        p.map == g.map && p.grid.z == g.grid.z && taxicab_distance(p.grid, g.grid) <= 1
    }
}

/// The state after a quest is marked completed and the commitment counted.
pub open spec fn quest_closed(s: SimState, quest: QuestId) -> SimState {
    SimState {
        quests: s.quests.insert(quest.0, Quest { status: QuestStatus::Completed, ..s.quests[quest.0] }),
        progression: CharacterProgression {
            fulfilled_commitments: s.progression.fulfilled_commitments.saturating_add(1),
            ..s.progression
        },
        ..s
    }
}

/// The items a quest asks to be recovered, in objective order.
pub open spec fn recovered_items(objectives: Seq<QuestObjective>) -> Seq<ItemId>
    decreases objectives.len(),
{
    if objectives.len() == 0 {
        Seq::empty()
    } else {
        let rest = recovered_items(objectives.drop_last());
        match objectives.last().kind {
            QuestObjectiveKind::Recover(item) => rest.push(item),
            QuestObjectiveKind::Defeat(_) => rest,
        }
    }
}

impl Simulation {
    fn find_blocker(&self, map: MapId, grid: GridPos) -> (found: Option<EntityId>)
        requires
            self.wf(),
        ensures
            found == match first_blocker(self@, map, grid) {
                Some(k) => Some(EntityId(k)),
                None => None::<EntityId>,
            },
    {
        let keys = map_keys(&self.entities);
        let mut i: usize = 0;
        while i < keys.len()
            invariant
                i <= keys@.len(),
                keys@.to_set() == self@.entities.dom(),
                strictly_increasing(keys@),
                forall|j: int| 0 <= j < i ==> !blocks_at(self@, #[trigger] keys@[j], map, grid),
            decreases keys@.len() - i,
        {
            let k = keys[i];
            proof {
                assert(keys@.to_set().contains(k));
            }
            let here = match self.entities.get(&k) {
                None => false,
                Some(e) => e.position.map == map && e.position.grid == grid,
            };
            if here && self.is_living_hostile(k) {
                proof {
                    assert(blocks_at(self@, k, map, grid));
                    assert forall|j: u64| blocks_at(self@, j, map, grid) implies k <= j by {
                        assert(keys@.to_set().contains(j));
                        let jj = choose|jj: int| 0 <= jj < keys@.len() && keys@[jj] == j;
                        if jj < i {
                            assert(!blocks_at(self@, keys@[jj], map, grid));
                        } else if jj > i {
                            assert(keys@[i as int] < keys@[jj]);
                        }
                    }
                    let c = choose|c: u64| blocks_at(self@, c, map, grid) && forall|j: u64| blocks_at(self@, j, map, grid) ==> c <= j;
                    assert(c <= k && k <= c);
                }
                return Some(EntityId(k));
            }
            i = i + 1;
        }
        proof {
            assert forall|j: u64| !blocks_at(self@, j, map, grid) by {
                if blocks_at(self@, j, map, grid) {
                    assert(keys@.to_set().contains(j));
                    let jj = choose|jj: int| 0 <= jj < keys@.len() && keys@[jj] == j;
                    assert(!blocks_at(self@, keys@[jj], map, grid));
                }
            }
        }
        None
    }

    fn place_player(&mut self, position: WorldPosition, facing: Direction)
        requires
            old(self).wf(),
        ensures
            final(self).wf(),
            final(self)@ == player_placed(old(self)@, position, facing),
    {
        let ghost s0 = self@;
        let player = self.player.0;
        let mut entity = match self.entities.get(&player) {
            None => {
                return;
            },
            Some(e) => *e,
        };
        entity.position = position;
        entity.facing = facing;
        self.entities.insert(player, entity);
        assert forall|k: u64| #[trigger] self@.entities.contains_key(k) implies self@.entities[k].id.0 == k by {
            if k != player {
                assert(s0.entities.contains_key(k));
            }
        }
        assert forall|k: u64| #[trigger] self@.containers.contains_key(k) implies self@.entities.contains_key(k) by {
            assert(s0.entities.contains_key(k));
        }
        assert(self@ =~= player_placed(s0, position, facing));
    }

    #[verifier::spinoff_prover]
    #[verifier::rlimit(40)]
    fn resolve_move(&mut self, direction: Direction) -> (outcome: CommandOutcome)
        requires
            old(self).wf(),
        ensures
            final(self).wf(),
            final(self)@.player == old(self)@.player,
            move_settled(old(self)@, direction, final(self)@, outcome),
    {
        let player = self.player;
        let here = match self.entities.get(&player.0) {
            None => {
                return idle();
            },
            Some(e) => e.position,
        };
        let (dx, dy) = direction.delta();
        let nx = here.grid.x as i64 + dx as i64;
        let ny = here.grid.y as i64 + dy as i64;
        if nx < i32::MIN as i64 || nx > i32::MAX as i64 || ny < i32::MIN as i64 || ny > i32::MAX as i64 {
            return idle();
        }
        let destination = GridPos { x: nx as i32, y: ny as i32, z: here.grid.z };
        match self.find_blocker(here.map, destination) {
            Some(target) => {
                self.place_player(here, direction);
                let outcome = self.resolve_melee(player, target);
                return outcome;
            },
            None => {},
        }
        let target = WorldPosition { map: here.map, grid: destination };
        if !self.cell_open_exec(target) {
            return idle();
        }
        let gate: Option<(crate::model::TransitionKind, WorldPosition)> = match self.transitions.get(
            &position_key_exec(target),
        ) {
            None => None,
            Some(t) => if t.from.map != t.to.map {
                Some((t.kind, t.to))
            } else {
                None
            },
        };
        let arrival = match gate {
            Some((_, to)) => to,
            None => target,
        };
        self.place_player(arrival, direction);
        self.tick = self.tick.saturating_add(1);
        let mut events: Vec<SimulationEvent> = Vec::new();
        match gate {
            Some((kind, to)) => {
                events.push(SimulationEvent::Traversed { kind, destination: to });
            },
            None => {},
        }
        let ghost before = events@;
        self.record_map_discovery(arrival.map, &mut events);
        let outcome = CommandOutcome { advanced_time: true, changed_world: true, events };
        proof {
            let expected = walk_result(old(self)@, direction, destination);
            assert(outcome_of(outcome).events =~= expected.1.events);
        }
        outcome
    }

    fn resolve_traverse(&mut self) -> (outcome: CommandOutcome)
        requires
            old(self).wf(),
        ensures
            final(self).wf(),
            (final(self)@, outcome_of(outcome)) == traverse_result(old(self)@),
    {
        let player = self.player;
        let (here, facing) = match self.entities.get(&player.0) {
            None => {
                return failed(ActionFailure::NoTransition);
            },
            Some(e) => (e.position, e.facing),
        };
        let (kind, to) = match self.transitions.get(&position_key_exec(here)) {
            None => {
                return failed(ActionFailure::NoTransition);
            },
            Some(t) => (t.kind, t.to),
        };
        self.place_player(to, facing);
        self.tick = self.tick.saturating_add(1);
        let mut events = single_event(SimulationEvent::Traversed { kind, destination: to });
        self.record_map_discovery(to.map, &mut events);
        let outcome = CommandOutcome { advanced_time: true, changed_world: true, events };
        proof {
            assert(outcome_of(outcome).events =~= traverse_result(old(self)@).1.events);
        }
        outcome
    }

    fn recovered_item_list(quest: &Quest) -> (items: Vec<ItemId>)
        ensures
            items@ == recovered_items(quest.objectives@),
    {
        let mut items: Vec<ItemId> = Vec::new();
        let mut i: usize = 0;
        while i < quest.objectives.len()
            invariant
                i <= quest.objectives@.len(),
                items@ == recovered_items(quest.objectives@.subrange(0, i as int)),
            decreases quest.objectives@.len() - i,
        {
            proof {
                assert(quest.objectives@.subrange(0, i + 1).drop_last() =~= quest.objectives@.subrange(0, i as int));
            }
            match quest.objectives[i].kind {
                QuestObjectiveKind::Recover(item) => {
                    items.push(item);
                },
                QuestObjectiveKind::Defeat(_) => {},
            }
            i = i + 1;
        }
        proof {
            assert(quest.objectives@.subrange(0, quest.objectives@.len() as int) =~= quest.objectives@);
        }
        items
    }

    #[verifier::spinoff_prover]
    fn resolve_quest_turn_in(&mut self, quest_id: QuestId) -> (outcome: CommandOutcome)
        requires
            old(self).wf(),
        ensures
            final(self).wf(),
            final(self)@.player == old(self)@.player,
            turn_in_settled(old(self)@, quest_id, final(self)@, outcome),
    {
        let (giver, status, reward, recovered) = match self.quests.get(&quest_id.0) {
            None => {
                return failed(ActionFailure::QuestNotReady);
            },
            Some(quest) => (quest.giver, quest.status, quest.reward_experience, Self::recovered_item_list(quest)),
        };
        let player = self.player;
        let here = match self.entities.get(&player.0) {
            None => {
                return failed(ActionFailure::QuestNotReady);
            },
            Some(e) => e.position,
        };
        let there = match self.entities.get(&giver.0) {
            None => {
                return failed(ActionFailure::QuestNotReady);
            },
            Some(e) => e.position,
        };
        if status != QuestStatus::ReadyToTurnIn || here.map != there.map || here.grid.z != there.grid.z
            || !taxicab_within(here.grid, there.grid, 1) {
            return failed(ActionFailure::QuestNotReady);
        }
        let ghost s0 = self@;
        let mut quest = match self.quests.remove(&quest_id.0) {
            None => {
                return failed(ActionFailure::QuestNotReady);
            },
            Some(q) => q,
        };
        quest.status = QuestStatus::Completed;
        proof {
            assert(s0.quests[quest_id.0].id.0 == quest_id.0);
            lemma_wf_quest_update(s0, quest_id.0, quest);
        }
        self.quests.insert(quest_id.0, quest);
        self.progression.fulfilled_commitments = self.progression.fulfilled_commitments.saturating_add(1);
        let ghost closed = self@;
        assert(closed =~= quest_closed(s0, quest_id));
        let mut events = single_event(SimulationEvent::QuestCompleted { quest: quest_id });
        let mut i: usize = 0;
        while i < recovered.len()
            invariant
                self.wf(),
                i <= recovered@.len(),
                self@ == (SimState { inventories: self@.inventories, ..closed }),
                events@.len() >= 1,
                events@[0] == (SimulationEvent::QuestCompleted { quest: quest_id }),
                player == closed.player,
                self.wf(),
                closed == quest_closed(s0, quest_id),
                recovered@ == recovered_items(s0.quests[quest_id.0].objectives@),
                giver == s0.quests[quest_id.0].giver,
                closed.entities.contains_key(giver.0),
                forall|r: u64|
                    #![trigger carries(self@, giver.0, r)]
                    recovered@.take(i as int).contains(ItemId(r)) && carries(s0, player.0, r) && s0.items.contains_key(r)
                        && !s0.containers.contains_key(giver.0) && giver != player ==> carries(self@, giver.0, r)
                        && !carries(self@, player.0, r),
                forall|h: u64, r: u64|
                    !recovered@.take(i as int).contains(ItemId(r)) ==> #[trigger] carries(self@, h, r) == carries(s0, h, r),
            decreases recovered@.len() - i,
        {
            let item = recovered[i];
            let ghost before = self@;
            let carried = self.player_carries(item);
            let mut moved_ok = false;
            if carried {
                match self.transfer_item(item, player, giver) {
                    Ok(event) => {
                        events.push(event);
                        moved_ok = true;
                    },
                    Err(_) => {},
                }
            }
            proof {
                assert(moved_ok ==> custody_moved(before, self@, item.0, player.0, giver.0));
                assert(!moved_ok ==> self@ == before);
                assert(carried && transfer_check(before, item, player, giver) is None ==> moved_ok);
                assert(recovered@.take(i + 1) =~= recovered@.take(i as int).push(item));
                if moved_ok {
                    let mid = choose|mid: Map<u64, Inventory>|
                        inventory_lost(before.inventories, mid, player.0, item.0) && inventory_gained(
                            mid,
                            self@.inventories,
                            giver.0,
                            item.0,
                        );
                    assert forall|h: u64, r: u64| r != item.0 implies #[trigger] carries(self@, h, r) == carries(before, h, r) by {
                        if h == giver.0 {
                            assert(held_items(mid, giver.0).contains(r) == carries(before, giver.0, r));
                        } else if before.inventories.contains_key(h) {
                            assert(mid.contains_key(h));
                        }
                    }
                    if giver != player {
                        assert(!carries(self@, player.0, item.0)) by {
                            assert(mid[player.0].items@ == before.inventories[player.0].items@.remove(item.0));
                        }
                    }
                }
                assert forall|h: u64, r: u64|
                    !recovered@.take(i + 1).contains(ItemId(r)) implies #[trigger] carries(self@, h, r) == carries(s0, h, r) by {
                    assert(!recovered@.take(i as int).contains(ItemId(r)));
                    if r == item.0 {
                        assert(recovered@.take(i + 1)[i as int] == item);
                    }
                }
                assert forall|r: u64|
                    #![trigger carries(self@, giver.0, r)]
                    recovered@.take(i + 1).contains(ItemId(r)) && carries(s0, player.0, r) && s0.items.contains_key(r)
                        && !s0.containers.contains_key(giver.0) && giver != player implies carries(self@, giver.0, r)
                        && !carries(self@, player.0, r) by {
                    if r != item.0 {
                        let j = choose|j: int| 0 <= j < i + 1 && #[trigger] recovered@.take(i + 1)[j] == ItemId(r);
                        assert(recovered@.take(i as int)[j] == ItemId(r));
                        assert(carries(before, giver.0, r));
                    } else if recovered@.take(i as int).contains(ItemId(r)) {
                        assert(carries(before, giver.0, r));
                    } else {
                        assert(carries(before, player.0, r) == carries(s0, player.0, r));
                        assert(before.items == s0.items && before.containers == s0.containers);
                        assert(transfer_check(before, item, player, giver) is None);
                    }
                }
            }
            i = i + 1;
        }
        let ghost delivered = self@;
        proof {
            assert(recovered@.take(recovered@.len() as int) =~= recovered@);
        }
        self.grant_experience(reward, &mut events);
        proof {
            assert(delivered.progression == closed.progression);
            assert(after_experience(delivered, reward).progression == after_experience(closed, reward).progression);
            assert(delivered.combatants == closed.combatants);
            assert(after_experience(delivered, reward).combatants == after_experience(closed, reward).combatants);
            assert(self@.inventories == delivered.inventories);
            assert forall|h: u64, r: u64| #[trigger] carries(self@, h, r) == carries(delivered, h, r) by {}
        }
        CommandOutcome { advanced_time: false, changed_world: true, events }
    }
}


/// Hostiles notice the player from this many steps away.
pub const HOSTILE_NOTICE_RANGE: i64 = 12;

/// Another entity stands at `grid` on `map`.
pub open spec fn occupied_by_other(s: SimState, mover: u64, map: MapId, grid: GridPos) -> bool {
    exists|k: u64|
        #![trigger s.entities[k]]
        s.entities.contains_key(k) && k != mover && s.entities[k].position.map == map && s.entities[k].position.grid
            == grid && still_standing(s, k)
}

/// An entity still in the world: not a combatant, or a living one.
pub open spec fn still_standing(s: SimState, k: u64) -> bool {
    !s.combatants.contains_key(k) || s.combatants[k].health > 0
}

/// A step a hostile may take: onto a four-way neighbour of where it stands
/// that has open terrain, holds no other entity and is not the goal itself.
pub open spec fn legal_step(s: SimState, hostile: u64, goal: GridPos, step: GridPos) -> bool {
    let start = s.entities[hostile].position;
    &&& step.z == start.grid.z
    &&& taxicab_distance(start.grid, step) == 1
    &&& step != goal
    &&& cell_open(s, WorldPosition { map: start.map, grid: step })
    &&& !occupied_by_other(s, hostile, start.map, step)
}

/// The events a hostile turn may add: retaliation blows against the player
/// and the player's defeat.
pub open spec fn retaliation_notice(s: SimState, e: SimulationEvent) -> bool {
    match e {
        SimulationEvent::Damaged { target, method, .. } => target == s.player && method == CombatMethod::Retaliation,
        SimulationEvent::Defeated { entity, .. } => entity == s.player,
        _ => false,
    }
}

/// Healer `a` is preferred to healer `b` for a player defeated at `at`: one
/// on the same map, then on the same layer, then nearer, then lower identity.
pub open spec fn healer_before(s: SimState, at: WorldPosition, a: u64, b: u64) -> bool {
    let pa = s.entities[a].position;
    let pb = s.entities[b].position;
    let ka = (pa.map != at.map, pa.grid.z != at.grid.z, healer_distance(at, pa));
    let kb = (pb.map != at.map, pb.grid.z != at.grid.z, healer_distance(at, pb));
    if ka.0 != kb.0 {
        !ka.0
    } else if ka.1 != kb.1 {
        !ka.1
    } else if ka.2 != kb.2 {
        ka.2 < kb.2
    } else {
        a <= b
    }
}

/// Distance used to rank healers: steps on the same layer, otherwise the largest `i32`.
pub open spec fn healer_distance(at: WorldPosition, p: WorldPosition) -> int {
    if p.map == at.map && p.grid.z == at.grid.z {
        taxicab_distance(p.grid, at.grid)
    } else {
        i32::MAX as int
    }
}

/// A registered healer who still exists.
pub open spec fn available_healer(s: SimState, k: u64) -> bool {
    s.healers.contains(k) && s.entities.contains_key(k)
}

/// The healer a defeated player is brought to.
pub open spec fn chosen_healer(s: SimState) -> Option<u64> {
    let at = player_position(s);
    if exists|k: u64| available_healer(s, k) {
        Some(
            choose|k: u64|
                available_healer(s, k) && forall|j: u64| available_healer(s, j) ==> healer_before(s, at, k, j),
        )
    } else {
        None
    }
}

/// A cell beside the healer where the revived player may stand.
pub open spec fn recovery_spot(s: SimState, healer: u64, map: MapId, grid: GridPos) -> bool {
    &&& cell_open(s, WorldPosition { map, grid })
    &&& !exists|k: u64|
        #![trigger s.entities[k]]
        s.entities.contains_key(k) && k != s.player.0 && k != healer && s.entities[k].position.map == map
            && s.entities[k].position.grid == grid && still_standing(s, k)
}

/// The first free open cell north, east, south or west of the healer, or the
/// healer's own position when none is free.
pub open spec fn recovery_destination_of(s: SimState, healer: u64) -> WorldPosition {
    let h = s.entities[healer].position;
    let n = step_from(h.grid, Direction::North);
    let e = step_from(h.grid, Direction::East);
    let so = step_from(h.grid, Direction::South);
    let w = step_from(h.grid, Direction::West);
    if n is Some && recovery_spot(s, healer, h.map, n.unwrap()) {
        WorldPosition { map: h.map, grid: n.unwrap() }
    } else if e is Some && recovery_spot(s, healer, h.map, e.unwrap()) {
        WorldPosition { map: h.map, grid: e.unwrap() }
    } else if so is Some && recovery_spot(s, healer, h.map, so.unwrap()) {
        WorldPosition { map: h.map, grid: so.unwrap() }
    } else if w is Some && recovery_spot(s, healer, h.map, w.unwrap()) {
        WorldPosition { map: h.map, grid: w.unwrap() }
    } else {
        h
    }
}

/// Reviving a defeated player beside the preferred healer: full health, the
/// new position, time running again, and one event.
pub open spec fn revive_result(s: SimState) -> (SimState, Seq<SimulationEvent>) {
    let player = s.player.0;
    if !s.combatants.contains_key(player) || s.combatants[player].health > 0 || chosen_healer(s) is None {
        (s, Seq::empty())
    } else {
        let healer = chosen_healer(s).unwrap();
        let destination = recovery_destination_of(s, healer);
        let c = s.combatants[player];
        (
            SimState {
                combatants: s.combatants.insert(player, Combatant { health: c.max_health, ..c }),
                paused: false,
                ..player_placed(s, destination, s.entities[player].facing)
            },
            seq![
                SimulationEvent::RevivedAtHealer {
                    entity: s.player,
                    healer: EntityId(healer),
                    health: c.max_health,
                    destination,
                },
            ],
        )
    }
}

/// The directions a search tries, in order: north, east, south, west.
pub open spec fn direction_in_order(d: int) -> Direction {
    if d == 0 {
        Direction::North
    } else if d == 1 {
        Direction::East
    } else if d == 2 {
        Direction::South
    } else {
        Direction::West
    }
}

pub proof fn lemma_direction_in_order(d: Direction)
    ensures
        exists|i: int| 0 <= i < 4 && direction_in_order(i) == d,
{
    match d {
        Direction::North => assert(direction_in_order(0) == d),
        Direction::East => assert(direction_in_order(1) == d),
        Direction::South => assert(direction_in_order(2) == d),
        Direction::West => assert(direction_in_order(3) == d),
    }
}

fn next_cell(g: GridPos, d: usize) -> (next: Option<GridPos>)
    requires
        d < 4,
    ensures
        next == step_from(g, direction_in_order(d as int)),
{
    let (dx, dy): (i64, i64) = if d == 0 {
        (0, -1)
    } else if d == 1 {
        (1, 0)
    } else if d == 2 {
        (0, 1)
    } else {
        (-1, 0)
    };
    let nx = g.x as i64 + dx;
    let ny = g.y as i64 + dy;
    if nx < i32::MIN as i64 || nx > i32::MAX as i64 || ny < i32::MIN as i64 || ny > i32::MAX as i64 {
        None
    } else {
        Some(GridPos { x: nx as i32, y: ny as i32, z: g.z })
    }
}

/// A cell a chasing hostile may enter: open ground, not the goal, and free
/// of every other standing entity.
pub open spec fn chase_passable(s: SimState, hostile: u64, map: MapId, goal: GridPos, g: GridPos) -> bool {
    &&& g != goal
    &&& cell_open(s, WorldPosition { map, grid: g })
    &&& !occupied_by_other(s, hostile, map, g)
}

/// Following `path` from `start` as a chasing hostile: every step enters a
/// passable cell, and every cell stepped from after the first lies within the
/// search range of the start.
pub open spec fn chase_walk(s: SimState, hostile: u64, map: MapId, goal: GridPos, start: GridPos, path: Seq<Direction>) -> Option<GridPos>
    decreases path.len(),
{
    if path.len() == 0 {
        Some(start)
    } else {
        match chase_walk(s, hostile, map, goal, start, path.drop_last()) {
            None => None,
            Some(at) => if path.len() > 1 && taxicab_distance(start, at) > HOSTILE_NOTICE_RANGE - 1 {
                None
            } else {
                match step_from(at, path.last()) {
                    None => None,
                    Some(next) => if chase_passable(s, hostile, map, goal, next) {
                        Some(next)
                    } else {
                        None
                    },
                }
            },
        }
    }
}

/// A route by which a hostile closes in on `goal`: a walk of at least one
/// step, ending beside the goal somewhere other than where the hostile stands.
pub open spec fn chase_route(s: SimState, hostile: u64, goal: GridPos, path: Seq<Direction>) -> bool {
    let start = s.entities[hostile].position;
    path.len() >= 1 && match chase_walk(s, hostile, start.map, goal, start.grid, path) {
        Some(end) => end != start.grid && taxicab_distance(end, goal) <= 1,
        None => false,
    }
}

/// The cell a route enters first.
pub open spec fn route_first_step(s: SimState, hostile: u64, goal: GridPos, path: Seq<Direction>) -> Option<GridPos> {
    let start = s.entities[hostile].position;
    chase_walk(s, hostile, start.map, goal, start.grid, path.take(1))
}

/// Every passable neighbour of a cell has been reached by the chase search.
pub open spec fn chase_neighbour_reached(
    s: SimState,
    hostile: u64,
    map: MapId,
    goal: GridPos,
    start: (i32, i32),
    seen: Map<(i32, i32), (i32, i32)>,
    g: GridPos,
    d: int,
) -> bool {
    match step_from(g, direction_in_order(d)) {
        None => true,
        Some(n) => chase_passable(s, hostile, map, goal, n) ==> ((n.x, n.y) == start || seen.contains_key((n.x, n.y))),
    }
}

pub open spec fn chase_expanded(
    s: SimState,
    hostile: u64,
    map: MapId,
    goal: GridPos,
    start: (i32, i32),
    seen: Map<(i32, i32), (i32, i32)>,
    g: GridPos,
) -> bool {
    &&& chase_neighbour_reached(s, hostile, map, goal, start, seen, g, 0)
    &&& chase_neighbour_reached(s, hostile, map, goal, start, seen, g, 1)
    &&& chase_neighbour_reached(s, hostile, map, goal, start, seen, g, 2)
    &&& chase_neighbour_reached(s, hostile, map, goal, start, seen, g, 3)
}

/// The chase search, one look at a time. `frontier` holds the cells queued so
/// far, `head` the one being looked around, `d` the next direction to try in
/// `direction_in_order`, and `seen` the first step toward each cell reached.
/// Each look spends one unit of `fuel`; the search gives the first step toward
/// the first cell it reaches beside the goal, or nothing once the queue or the
/// fuel runs out.
pub open spec fn chase_search(
    s: SimState,
    hostile: u64,
    map: MapId,
    goal: GridPos,
    start: GridPos,
    frontier: Seq<GridPos>,
    head: int,
    d: int,
    seen: Map<(i32, i32), (i32, i32)>,
    fuel: nat,
) -> Option<GridPos>
    decreases fuel,
{
    if fuel == 0 || head < 0 || head >= frontier.len() {
        None
    } else if d >= 4 {
        chase_search(s, hostile, map, goal, start, frontier, head + 1, 0, seen, (fuel - 1) as nat)
    } else {
        let current = frontier[head];
        match step_from(current, direction_in_order(d)) {
            None => chase_search(s, hostile, map, goal, start, frontier, head, d + 1, seen, (fuel - 1) as nat),
            Some(cell) => {
                let key = (cell.x, cell.y);
                if !chase_passable(s, hostile, map, goal, cell) || key == (start.x, start.y) || seen.contains_key(key) {
                    chase_search(s, hostile, map, goal, start, frontier, head, d + 1, seen, (fuel - 1) as nat)
                } else {
                    let via = if head == 0 {
                        key
                    } else {
                        seen[(current.x, current.y)]
                    };
                    if taxicab_distance(cell, goal) <= 1 {
                        Some(GridPos { x: via.0, y: via.1, z: start.z })
                    } else {
                        let queued = if taxicab_distance(start, cell) <= HOSTILE_NOTICE_RANGE - 1 {
                            frontier.push(cell)
                        } else {
                            frontier
                        };
                        chase_search(s, hostile, map, goal, start, queued, head, d + 1, seen.insert(key, via), (fuel - 1) as nat)
                    }
                }
            },
        }
    }
}

/// Looks enough for a chase search through every cell within the search range.
pub open spec fn chase_search_fuel() -> nat {
    2650
}

/// The step a hostile takes toward `goal`: the breadth-first chase search
/// from where it stands, trying the directions in `direction_in_order`.
pub open spec fn chase_choice(s: SimState, hostile: u64, goal: GridPos) -> Option<GridPos> {
    let start = s.entities[hostile].position;
    if !s.entities.contains_key(hostile) || !s.maps.contains_key(start.map.0) {
        None
    } else {
        chase_search(s, hostile, start.map, goal, start.grid, seq![start.grid], 0, 0, Map::empty(), chase_search_fuel())
    }
}

/// Distinct cells of one layer, each within 11 steps of `centre`, number at
/// most 529: the square of side 23 around the centre holds them all.
#[verifier::spinoff_prover]
#[verifier::rlimit(40)]
pub proof fn lemma_cells_near_bounded(f: Seq<GridPos>, centre: GridPos)
    requires
        f.no_duplicates(),
        forall|j: int| 0 <= j < f.len() ==> (#[trigger] f[j]).z == centre.z && taxicab_distance(centre, f[j]) <= 11,
    ensures
        f.len() <= 529,
{
    let keys = f.map_values(|g: GridPos| (g.x - centre.x + 11) * 23 + (g.y - centre.y + 11));
    assert forall|a: int, b: int| 0 <= a < keys.len() && 0 <= b < keys.len() && a != b implies keys[a] != keys[b] by {
        assert(f[a] != f[b]);
        assert(f[a].z == f[b].z);
        assert(taxicab_distance(centre, f[a]) <= 11);
        assert(taxicab_distance(centre, f[b]) <= 11);
    }
    assert(keys.no_duplicates());
    let range = vstd::set_lib::set_int_range(0, 529);
    assert(keys.to_set().subset_of(range)) by {
        assert forall|k: int| keys.to_set().contains(k) implies range.contains(k) by {
            let j = choose|j: int| 0 <= j < keys.len() && keys[j] == k;
            assert(taxicab_distance(centre, f[j]) <= 11);
        }
    }
    keys.unique_seq_to_set();
    vstd::set_lib::lemma_int_range(0, 529);
    vstd::set_lib::lemma_len_subset(keys.to_set(), range);
}

/// A chase search that expanded every cell it queued holds every cell a chase
/// walk reaches.
proof fn lemma_chase_stays_seen(
    s: SimState,
    hostile: u64,
    map: MapId,
    goal: GridPos,
    start: GridPos,
    path: Seq<Direction>,
    frontier: Seq<GridPos>,
    seen: Map<(i32, i32), (i32, i32)>,
    at: Map<(i32, i32), int>,
)
    requires
        frontier.len() >= 1,
        frontier[0] == start,
        forall|j: int| 0 <= j < frontier.len() ==> chase_expanded(s, hostile, map, goal, (start.x, start.y), seen, #[trigger] frontier[j]),
        forall|k: (i32, i32)|
            #[trigger] seen.contains_key(k) && taxicab_distance(start, GridPos { x: k.0, y: k.1, z: start.z })
                <= HOSTILE_NOTICE_RANGE - 1 ==> 0 <= at[k] < frontier.len() && frontier[at[k]] == (GridPos {
                x: k.0,
                y: k.1,
                z: start.z,
            }),
    ensures
        chase_walk(s, hostile, map, goal, start, path) matches Some(end) ==> end.z == start.z && ((end.x == start.x
            && end.y == start.y) || seen.contains_key((end.x, end.y))),
    decreases path.len(),
{
    if path.len() > 0 {
        let before = path.drop_last();
        lemma_chase_stays_seen(s, hostile, map, goal, start, before, frontier, seen, at);
        match chase_walk(s, hostile, map, goal, start, before) {
            None => {},
            Some(here) => {
                if !(path.len() > 1 && taxicab_distance(start, here) > HOSTILE_NOTICE_RANGE - 1) {
                    let j: int = if (here.x, here.y) == (start.x, start.y) {
                        0
                    } else {
                        at[(here.x, here.y)]
                    };
                    if before.len() > 0 && (here.x, here.y) != (start.x, start.y) {
                        assert(frontier[j] == here);
                    }
                    assert(frontier[j] == here);
                    assert(chase_expanded(s, hostile, map, goal, (start.x, start.y), seen, frontier[j]));
                    lemma_direction_in_order(path.last());
                    let i = choose|i: int| 0 <= i < 4 && direction_in_order(i) == path.last();
                    assert(chase_neighbour_reached(s, hostile, map, goal, (start.x, start.y), seen, here, i));
                }
            },
        }
    }
}

/// Distinct cells, each the start or one of `cells`, number at most one more
/// than `cells` does.
pub proof fn lemma_distinct_cells_bounded(frontier: Seq<GridPos>, cells: Seq<GridPos>, start: GridPos)
    requires
        frontier.no_duplicates(),
        forall|j: int| 0 <= j < frontier.len() ==> #[trigger] frontier[j] == start || cells.contains(frontier[j]),
    ensures
        frontier.len() <= cells.len() + 1,
{
    let all = cells.to_set().insert(start);
    assert(frontier.to_set().subset_of(all)) by {
        assert forall|g: GridPos| frontier.to_set().contains(g) implies all.contains(g) by {
            let j = choose|j: int| 0 <= j < frontier.len() && frontier[j] == g;
            assert(frontier[j] == start || cells.contains(frontier[j]));
        }
    }
    cells.lemma_cardinality_of_set();
    frontier.unique_seq_to_set();
    vstd::set_lib::lemma_len_subset(frontier.to_set(), all);
}

proof fn lemma_chase_needs_map(s: SimState, hostile: u64, map: MapId, goal: GridPos, start: GridPos, path: Seq<Direction>)
    requires
        !s.maps.contains_key(map.0),
        path.len() >= 1,
    ensures
        chase_walk(s, hostile, map, goal, start, path) is None,
    decreases path.len(),
{
    if path.len() > 1 {
        lemma_chase_needs_map(s, hostile, map, goal, start, path.drop_last());
    }
}

proof fn lemma_fresh_cell(
    f: Seq<GridPos>,
    next: GridPos,
    z: i16,
    start_key: (i32, i32),
    seen: Map<(i32, i32), (i32, i32)>,
)
    requires
        f.no_duplicates(),
        f.len() >= 1,
        (f[0].x, f[0].y) == start_key,
        next.z == z,
        (next.x, next.y) != start_key,
        !seen.contains_key((next.x, next.y)),
        forall|j: int| 1 <= j < f.len() ==> (#[trigger] f[j]).z == z && seen.contains_key((f[j].x, f[j].y)),
    ensures
        f.push(next).no_duplicates(),
{
    let g = f.push(next);
    assert forall|a: int, b: int| 0 <= a < b < g.len() implies g[a] != g[b] by {
        assert(g[a] == f[a]);
        if b < f.len() {
            assert(g[b] == f[b]);
        }
    }
}

proof fn lemma_chase_expansion_kept(
    s: SimState,
    hostile: u64,
    map: MapId,
    goal: GridPos,
    start_key: (i32, i32),
    before: Map<(i32, i32), (i32, i32)>,
    after: Map<(i32, i32), (i32, i32)>,
    f: Seq<GridPos>,
    done: int,
    current: GridPos,
    d: int,
)
    requires
        forall|k: (i32, i32)| before.contains_key(k) ==> #[trigger] after.contains_key(k),
        0 <= done <= f.len(),
        forall|j: int| 0 <= j < done ==> chase_expanded(s, hostile, map, goal, start_key, before, #[trigger] f[j]),
        forall|e: int| 0 <= e < d ==> #[trigger] chase_neighbour_reached(s, hostile, map, goal, start_key, before, current, e),
        chase_neighbour_reached(s, hostile, map, goal, start_key, after, current, d),
    ensures
        forall|j: int| 0 <= j < done ==> chase_expanded(s, hostile, map, goal, start_key, after, #[trigger] f[j]),
        forall|e: int| 0 <= e < d + 1 ==> #[trigger] chase_neighbour_reached(s, hostile, map, goal, start_key, after, current, e),
{
    assert forall|j: int| 0 <= j < done implies chase_expanded(s, hostile, map, goal, start_key, after, #[trigger] f[j]) by {
        assert(chase_expanded(s, hostile, map, goal, start_key, before, f[j]));
    }
    assert forall|e: int| 0 <= e < d + 1 implies #[trigger] chase_neighbour_reached(s, hostile, map, goal, start_key, after, current, e) by {
        if e < d {
            assert(chase_neighbour_reached(s, hostile, map, goal, start_key, before, current, e));
        }
    }
}

/// The world after entity `k` steps to `position`, turning to face the way it went.
pub open spec fn entity_stepped(s: SimState, k: u64, position: WorldPosition) -> SimState {
    SimState {
        entities: s.entities.insert(
            k,
            Entity {
                position,
                facing: facing_toward(
                    position.grid.x - s.entities[k].position.grid.x,
                    position.grid.y - s.entities[k].position.grid.y,
                ),
                ..s.entities[k]
            },
        ),
        ..s
    }
}

/// The player is still a living combatant.
pub open spec fn player_fighting(s: SimState) -> bool {
    s.combatants.contains_key(s.player.0) && s.combatants[s.player.0].health > 0
}

/// One hostile's part of the hostiles' turn, from `a` to `b`, adding `added`
/// to the events; `attacked` tells whether a blow already landed on the player
/// this turn. While the player stands, a hostile on the player's map and layer
/// strikes for two when it is beside the player and no blow has landed yet;
/// otherwise, within the notice range, it takes the step the chase search
/// chooses, the first step of a route toward the player, and stays put when
/// no route exists.
pub open spec fn hostile_acted(
    a: SimState,
    hostile: u64,
    attacked: bool,
    b: SimState,
    added: Seq<SimulationEvent>,
    attacked_after: bool,
) -> bool {
    let player = a.player;
    let there = a.entities[hostile].position;
    let here = a.entities[player.0].position;
    if !player_fighting(a) || !a.entities.contains_key(hostile) || !a.entities.contains_key(player.0) || there.map
        != here.map || there.grid.z != here.grid.z {
        b == a && added.len() == 0 && attacked_after == attacked
    } else if taxicab_distance(there.grid, here.grid) <= 1 && !attacked {
        &&& b == after_damage(a, player.0, 2)
        &&& added == damage_notices(a, EntityId(hostile), player, 2, CombatMethod::Retaliation)
        &&& attacked_after
    } else if taxicab_distance(there.grid, here.grid) <= HOSTILE_NOTICE_RANGE {
        &&& added.len() == 0
        &&& attacked_after == attacked
        &&& match chase_choice(a, hostile, here.grid) {
            None => (forall|p: Seq<Direction>| !#[trigger] chase_route(a, hostile, here.grid, p)) && b == a,
            Some(step) => legal_step(a, hostile, here.grid, step) && (exists|p: Seq<Direction>|
                #[trigger] chase_route(a, hostile, here.grid, p) && route_first_step(a, hostile, here.grid, p) == Some(
                    step,
                )) && b == entity_stepped(a, hostile, WorldPosition { map: there.map, grid: step }),
        }
    } else {
        b == a && added.len() == 0 && attacked_after == attacked
    }
}

/// A record of the hostiles acting one after another, in the order of `ids`:
/// `trace` holds the world before each and after the last, `marks` where each
/// one's events begin in `events`, and `flags` whether a blow had landed.
pub open spec fn hostile_trace(
    a: SimState,
    ids: Seq<u64>,
    trace: Seq<SimState>,
    marks: Seq<int>,
    flags: Seq<bool>,
    events: Seq<SimulationEvent>,
) -> bool {
    &&& trace.len() == ids.len() + 1
    &&& marks.len() == ids.len() + 1
    &&& flags.len() == ids.len() + 1
    &&& trace[0] == a
    &&& !flags[0]
    &&& forall|i: int| 0 <= i <= ids.len() ==> 0 <= #[trigger] marks[i] <= events.len()
    &&& forall|i: int| 0 <= i < ids.len() ==> marks[i] <= marks[i + 1] && #[trigger] hostile_acted(
        trace[i],
        ids[i],
        flags[i],
        trace[i + 1],
        events.subrange(marks[i], marks[i + 1]),
        flags[i + 1],
    )
}

/// The hostiles played their turn from `a` to `b`: every living hostile, in
/// order of identity, acted as `hostile_acted` says, and their events follow
/// `before`.
pub open spec fn hostiles_played(a: SimState, b: SimState, before: Seq<SimulationEvent>, after: Seq<SimulationEvent>) -> bool {
    exists|ids: Seq<u64>, trace: Seq<SimState>, marks: Seq<int>, flags: Seq<bool>|
        {
            &&& #[trigger] hostile_trace(a, ids, trace, marks, flags, after)
            &&& forall|i: int, j: int| 0 <= i < j < ids.len() ==> ids[i] < ids[j]
            &&& forall|k: u64| living_hostile(a, k) <==> ids.contains(k)
            &&& marks[0] == before.len()
            &&& marks[ids.len() as int] == after.len()
            &&& trace[ids.len() as int] == b
        }
}

fn neighbor(x: i32, y: i32, d: usize) -> (n: Option<(i32, i32)>)
    requires
        d < 4,
    ensures
        n is Some ==> abs_int(n.unwrap().0 - x) + abs_int(n.unwrap().1 - y) == 1,
        ({
            let dir = if d == 0 {
                Direction::North
            } else if d == 1 {
                Direction::East
            } else if d == 2 {
                Direction::South
            } else {
                Direction::West
            };
            match step_from(GridPos { x, y, z: 0 }, dir) {
                Some(g) => n == Some((g.x, g.y)),
                None => n is None,
            }
        }),
{
    let (dx, dy): (i64, i64) = if d == 0 {
        (0, -1)
    } else if d == 1 {
        (1, 0)
    } else if d == 2 {
        (0, 1)
    } else {
        (-1, 0)
    };
    let nx = x as i64 + dx;
    let ny = y as i64 + dy;
    if nx < i32::MIN as i64 || nx > i32::MAX as i64 || ny < i32::MIN as i64 || ny > i32::MAX as i64 {
        None
    } else {
        Some((nx as i32, ny as i32))
    }
}

impl Simulation {
    fn standing(&self, k: u64) -> (standing: bool)
        ensures
            standing == still_standing(self@, k),
    {
        match self.combatants.get(&k) {
            None => true,
            Some(c) => c.health > 0,
        }
    }

    fn occupied_cell(&self, mover: u64, map: MapId, grid: GridPos) -> (occupied: bool)
        requires
            self.wf(),
        ensures
            occupied == occupied_by_other(self@, mover, map, grid),
    {
        let keys = map_keys(&self.entities);
        let mut i: usize = 0;
        while i < keys.len()
            invariant
                i <= keys@.len(),
                keys@.to_set() == self@.entities.dom(),
                forall|j: int|
                    0 <= j < i ==> {
                        let k = #[trigger] keys@[j];
                        !(k != mover && self@.entities[k].position.map == map && self@.entities[k].position.grid
                            == grid && still_standing(self@, k))
                    },
            decreases keys@.len() - i,
        {
            let k = keys[i];
            proof {
                assert(keys@.to_set().contains(k));
            }
            let here = match self.entities.get(&k) {
                None => false,
                Some(e) => e.position.map == map && e.position.grid == grid,
            };
            if k != mover && here && self.standing(k) {
                return true;
            }
            i = i + 1;
        }
        proof {
            assert forall|k: u64|
                !(#[trigger] self@.entities.contains_key(k) && k != mover && self@.entities[k].position.map == map
                    && self@.entities[k].position.grid == grid && still_standing(self@, k)) by {
                if self@.entities.contains_key(k) {
                    assert(keys@.to_set().contains(k));
                    let j = choose|j: int| 0 <= j < keys@.len() && keys@[j] == k;
                    assert(keys@[j] == k);
                }
            }
        }
        false
    }

    /// The first step of a route by which `hostile` closes in on `goal`: a
    /// breadth-first search through passable cells, reaching no farther than
    /// the notice range from where the hostile stands.
    #[verifier::rlimit(100)]
    #[verifier::spinoff_prover]
    fn hostile_step_toward(&self, hostile: EntityId, goal: GridPos) -> (step: Option<GridPos>)
        requires
            self.wf(),
        ensures
            step is Some ==> self@.entities.contains_key(hostile.0) && legal_step(self@, hostile.0, goal, step.unwrap())
                && exists|path: Seq<Direction>|
                #[trigger] chase_route(self@, hostile.0, goal, path) && route_first_step(self@, hostile.0, goal, path)
                    == step,
            self@.entities.contains_key(hostile.0) && step is None ==> forall|path: Seq<Direction>|
                !#[trigger] chase_route(self@, hostile.0, goal, path),
            step == chase_choice(self@, hostile.0, goal),
    {
        let ghost s = self@;
        let start = match self.entities.get(&hostile.0) {
            None => {
                return None;
            },
            Some(e) => e.position,
        };
        let map = match self.maps.get(&start.map.0) {
            None => {
                proof {
                    assert forall|path: Seq<Direction>| !#[trigger] chase_route(s, hostile.0, goal, path) by {
                        if path.len() >= 1 {
                            lemma_chase_needs_map(s, hostile.0, start.map, goal, start.grid, path);
                        }
                    }
                }
                return None;
            },
            Some(m) => m,
        };
        let z = start.grid.z;
        let start_key = (start.grid.x, start.grid.y);
        let cells = map.open_cells(z);
        let mut frontier: Vec<GridPos> = Vec::new();
        frontier.push(start.grid);
        let mut first_step: BTreeMap<(i32, i32), (i32, i32)> = BTreeMap::new();
        let ghost mut routes: Map<(i32, i32), Seq<Direction>> = Map::empty();
        let ghost mut at: Map<(i32, i32), int> = Map::empty();
        let mut head: usize = 0;
        let ghost mut fuel: nat = chase_search_fuel();
        proof {
            assert(frontier@.no_duplicates());
            assert(frontier@ =~= seq![start.grid]);
            assert(first_step@ =~= Map::<(i32, i32), (i32, i32)>::empty());
        }
        while head < frontier.len()
            invariant
                self.wf(),
                s == self@,
                s.entities.contains_key(hostile.0),
                start == s.entities[hostile.0].position,
                z == start.grid.z,
                start_key == (start.grid.x, start.grid.y),
                s.maps.contains_key(start.map.0),
                *map == s.maps[start.map.0],
                forall|p: GridPos| p.z == z && open_ground(*map, p) ==> #[trigger] cells@.contains(p),
                head <= frontier@.len(),
                frontier@.len() <= cells@.len() + 1,
                frontier@.len() >= 1,
                frontier@[0] == start.grid,
                frontier@.no_duplicates(),
                forall|j: int|
                    1 <= j < frontier@.len() ==> (#[trigger] frontier@[j]).z == z && first_step@.contains_key(
                        (frontier@[j].x, frontier@[j].y),
                    ) && cells@.contains(frontier@[j]) && taxicab_distance(start.grid, frontier@[j])
                        <= HOSTILE_NOTICE_RANGE - 1,
                !first_step@.contains_key(start_key),
                forall|k: (i32, i32)|
                    #[trigger] first_step@.contains_key(k) ==> {
                        let cell = GridPos { x: k.0, y: k.1, z };
                        let via = GridPos { x: first_step@[k].0, y: first_step@[k].1, z };
                        &&& legal_step(s, hostile.0, goal, via)
                        &&& routes.contains_key(k)
                        &&& routes[k].len() >= 1
                        &&& chase_walk(s, hostile.0, start.map, goal, start.grid, routes[k]) == Some(cell)
                        &&& chase_walk(s, hostile.0, start.map, goal, start.grid, routes[k].take(1)) == Some(via)
                        &&& taxicab_distance(cell, goal) > 1
                        &&& (taxicab_distance(start.grid, cell) <= HOSTILE_NOTICE_RANGE - 1 ==> 0 <= at[k]
                            < frontier@.len() && frontier@[at[k]] == cell)
                    },
                forall|j: int|
                    0 <= j < head ==> chase_expanded(s, hostile.0, start.map, goal, start_key, first_step@, #[trigger] frontier@[j]),
                frontier@.len() <= 529,
                fuel == chase_search_fuel() - 5 * head,
                chase_search(s, hostile.0, start.map, goal, start.grid, frontier@, head as int, 0, first_step@, fuel)
                    == chase_choice(s, hostile.0, goal),
            decreases cells@.len() + 1 - head,
        {
            let current = frontier[head];
            let origin = head == 0;
            head = head + 1;
            let mut d: usize = 0;
            while d < 4
                invariant
                    self.wf(),
                    s == self@,
                    s.entities.contains_key(hostile.0),
                    start == s.entities[hostile.0].position,
                    z == start.grid.z,
                    start_key == (start.grid.x, start.grid.y),
                    s.maps.contains_key(start.map.0),
                    *map == s.maps[start.map.0],
                    forall|p: GridPos| p.z == z && open_ground(*map, p) ==> #[trigger] cells@.contains(p),
                    d <= 4,
                    1 <= head <= frontier@.len(),
                    frontier@.len() <= cells@.len() + 1,
                    frontier@[0] == start.grid,
                    frontier@.no_duplicates(),
                    current == frontier@[head - 1],
                    origin == (head == 1),
                    forall|j: int|
                        1 <= j < frontier@.len() ==> (#[trigger] frontier@[j]).z == z && first_step@.contains_key(
                            (frontier@[j].x, frontier@[j].y),
                        ) && cells@.contains(frontier@[j]) && taxicab_distance(start.grid, frontier@[j])
                            <= HOSTILE_NOTICE_RANGE - 1,
                    !first_step@.contains_key(start_key),
                    forall|k: (i32, i32)|
                        #[trigger] first_step@.contains_key(k) ==> {
                            let cell = GridPos { x: k.0, y: k.1, z };
                            let via = GridPos { x: first_step@[k].0, y: first_step@[k].1, z };
                            &&& legal_step(s, hostile.0, goal, via)
                            &&& routes.contains_key(k)
                            &&& routes[k].len() >= 1
                            &&& chase_walk(s, hostile.0, start.map, goal, start.grid, routes[k]) == Some(cell)
                            &&& chase_walk(s, hostile.0, start.map, goal, start.grid, routes[k].take(1)) == Some(via)
                            &&& taxicab_distance(cell, goal) > 1
                            &&& (taxicab_distance(start.grid, cell) <= HOSTILE_NOTICE_RANGE - 1 ==> 0 <= at[k]
                                < frontier@.len() && frontier@[at[k]] == cell)
                        },
                    forall|j: int|
                        0 <= j < head - 1 ==> chase_expanded(s, hostile.0, start.map, goal, start_key, first_step@, #[trigger] frontier@[j]),
                    forall|e: int|
                        0 <= e < d ==> #[trigger] chase_neighbour_reached(s, hostile.0, start.map, goal, start_key, first_step@, current, e),
                    frontier@.len() <= 529,
                    fuel == chase_search_fuel() - 5 * (head - 1) - d,
                    chase_search(s, hostile.0, start.map, goal, start.grid, frontier@, head - 1, d as int, first_step@, fuel)
                        == chase_choice(s, hostile.0, goal),
                decreases 4 - d,
            {
                let next = next_cell(current, d);
                let ghost seen_before = first_step@;
                let ghost frontier_before = frontier@;
                let cell = match next {
                    None => {
                        proof {
                            fuel = (fuel - 1) as nat;
                        }
                        d = d + 1;
                        continue;
                    },
                    Some(n) => n,
                };
                let key = (cell.x, cell.y);
                if cell == goal || (cell.x == start.grid.x && cell.y == start.grid.y) || first_step.contains_key(&key)
                    || self.occupied_cell(hostile.0, start.map, cell) || !self.cell_open_exec(
                    WorldPosition { map: start.map, grid: cell },
                ) {
                    proof {
                        assert(chase_neighbour_reached(s, hostile.0, start.map, goal, start_key, first_step@, current, d as int));
                        fuel = (fuel - 1) as nat;
                    }
                    d = d + 1;
                    continue;
                }
                let via = if origin {
                    key
                } else {
                    match first_step.get(&(current.x, current.y)) {
                        None => {
                            proof {
                                assert(false);
                            }
                            d = d + 1;
                            continue;
                        },
                        Some(v) => *v,
                    }
                };
                proof {
                    let ck = (current.x, current.y);
                    let direction = direction_in_order(d as int);
                    let route = if origin {
                        seq![direction]
                    } else {
                        routes[ck].push(direction)
                    };
                    assert(route.last() == direction);
                    assert(step_from(current, direction) == Some(cell));
                    assert(chase_passable(s, hostile.0, start.map, goal, cell));
                    if origin {
                        assert(current == start.grid);
                        assert(route.drop_last() =~= Seq::<Direction>::empty());
                        assert(chase_walk(s, hostile.0, start.map, goal, start.grid, route.drop_last()) == Some(current));
                        assert(route.take(1) =~= route);
                        assert(legal_step(s, hostile.0, goal, cell));
                    } else {
                        assert(1 <= head - 1);
                        assert(first_step@.contains_key(ck));
                        assert(current.z == z);
                        assert(GridPos { x: ck.0, y: ck.1, z } == current);
                        assert(route.drop_last() =~= routes[ck]);
                        assert(chase_walk(s, hostile.0, start.map, goal, start.grid, route.drop_last()) == Some(current));
                        assert(taxicab_distance(start.grid, current) <= HOSTILE_NOTICE_RANGE - 1);
                        assert(route.take(1) =~= routes[ck].take(1));
                        assert(route.take(1).len() == 1);
                    }
                    assert(chase_walk(s, hostile.0, start.map, goal, start.grid, route) == Some(cell));
                    routes = routes.insert(key, route);
                }
                first_step.insert(key, via);
                if taxicab_within(cell, goal, 1) {
                    proof {
                        let route = routes[key];
                        assert(chase_route(s, hostile.0, goal, route));
                        assert(route_first_step(s, hostile.0, goal, route) == Some(GridPos { x: via.0, y: via.1, z }));
                    }
                    return Some(GridPos { x: via.0, y: via.1, z });
                }
                if taxicab_within(start.grid, cell, HOSTILE_NOTICE_RANGE - 1) {
                    proof {
                        at = at.insert(key, frontier@.len() as int);
                        assert(cells@.contains(cell));
                    }
                    frontier.push(cell);
                    proof {
                        lemma_fresh_cell(frontier_before, cell, z, start_key, seen_before);
                        assert(frontier@ == frontier_before.push(cell));
                        lemma_distinct_cells_bounded(frontier@, cells@, start.grid);
                        lemma_cells_near_bounded(frontier@, start.grid);
                    }
                }
                proof {
                    lemma_chase_expansion_kept(
                        s,
                        hostile.0,
                        start.map,
                        goal,
                        start_key,
                        seen_before,
                        first_step@,
                        frontier@,
                        (head - 1) as int,
                        current,
                        d as int,
                    );
                    fuel = (fuel - 1) as nat;
                }
                d = d + 1;
            }
            proof {
                assert(chase_expanded(s, hostile.0, start.map, goal, start_key, first_step@, current));
                fuel = (fuel - 1) as nat;
            }
        }
        proof {
            assert forall|path: Seq<Direction>| !#[trigger] chase_route(s, hostile.0, goal, path) by {
                lemma_chase_stays_seen(s, hostile.0, start.map, goal, start.grid, path, frontier@, first_step@, at);
            }
        }
        None
    }

    /// The living hostiles, smallest identity first.
    fn living_hostile_ids(&self) -> (ids: Vec<u64>)
        ensures
            forall|j: int| 0 <= j < ids@.len() ==> living_hostile(self@, #[trigger] ids@[j]),
            forall|k: u64| living_hostile(self@, k) ==> #[trigger] ids@.contains(k),
            forall|i: int, j: int| 0 <= i < j < ids@.len() ==> ids@[i] < ids@[j],
    {
        let keys = map_keys(&self.entities);
        let mut ids: Vec<u64> = Vec::new();
        let mut i: usize = 0;
        while i < keys.len()
            invariant
                i <= keys@.len(),
                keys@.to_set() == self@.entities.dom(),
                strictly_increasing(keys@),
                forall|j: int| 0 <= j < ids@.len() ==> living_hostile(self@, #[trigger] ids@[j]),
                forall|j: int| 0 <= j < i && living_hostile(self@, #[trigger] keys@[j]) ==> ids@.contains(keys@[j]),
                forall|j: int| 0 <= j < ids@.len() ==> exists|m: int| 0 <= m < i && keys@[m] == #[trigger] ids@[j],
                forall|a: int, b: int| 0 <= a < b < ids@.len() ==> ids@[a] < ids@[b],
            decreases keys@.len() - i,
        {
            let k = keys[i];
            let ghost before = ids@;
            if self.is_living_hostile(k) {
                proof {
                    assert forall|a: int| 0 <= a < before.len() implies before[a] < k by {
                        let m = choose|m: int| 0 <= m < i && keys@[m] == before[a];
                        assert(keys@[m] < keys@[i as int]);
                    }
                }
                ids.push(k);
                proof {
                    assert forall|j: int| 0 <= j < i + 1 && living_hostile(self@, #[trigger] keys@[j]) implies ids@.contains(keys@[j]) by {
                        if j < i {
                            let q = choose|q: int| 0 <= q < before.len() && before[q] == keys@[j];
                            assert(ids@[q] == before[q]);
                        } else {
                            assert(ids@[ids@.len() - 1] == k);
                        }
                    }
                    assert forall|j: int| 0 <= j < ids@.len() implies exists|m: int| 0 <= m < i + 1 && keys@[m] == #[trigger] ids@[j] by {
                        if j < before.len() {
                            assert(ids@[j] == before[j]);
                        } else {
                            assert(keys@[i as int] == ids@[j]);
                        }
                    }
                }
            }
            i = i + 1;
        }
        proof {
            assert forall|k: u64| living_hostile(self@, k) implies #[trigger] ids@.contains(k) by {
                assert(keys@.to_set().contains(k));
                let j = choose|j: int| 0 <= j < keys@.len() && keys@[j] == k;
                assert(living_hostile(self@, keys@[j]));
            }
        }
        ids
    }

    /// Every living hostile on the player's layer acts once: one adjacent
    /// hostile strikes the player, the others close in by one step.
    fn advance_hostiles(&mut self, events: &mut Vec<SimulationEvent>) -> (changed: bool)
        requires
            old(self).wf(),
        ensures
            final(self).wf(),
            final(self)@ == (SimState {
                entities: final(self)@.entities,
                combatants: final(self)@.combatants,
                paused: final(self)@.paused,
                ..old(self)@
            }),
            final(self)@.entities.dom() == old(self)@.entities.dom(),
            final(self)@.combatants.dom() == old(self)@.combatants.dom(),
            forall|k: u64| k != old(self)@.player.0 && #[trigger] old(self)@.combatants.contains_key(k)
                ==> final(self)@.combatants[k] == old(self)@.combatants[k],
            final(events)@.len() >= old(events)@.len(),
            final(events)@.subrange(0, old(events)@.len() as int) == old(events)@,
            forall|i: int|
                old(events)@.len() <= i < final(events)@.len() ==> retaliation_notice(old(self)@, #[trigger] final(events)@[i]),
            forall|i: int, j: int|
                old(events)@.len() <= i < j < final(events)@.len() ==> !(#[trigger] final(events)@[i] is Damaged
                    && #[trigger] final(events)@[j] is Damaged),
            hostiles_played(old(self)@, final(self)@, old(events)@, final(events)@),
            changed == (final(self)@ != old(self)@),
    {
        let ghost s0 = self@;
        let ghost base = events@;
        let hostiles = self.living_hostile_ids();
        let player = self.player;
        let mut changed = false;
        let mut player_attacked = false;
        let ghost mut trace: Seq<SimState> = seq![s0];
        let ghost mut marks: Seq<int> = seq![base.len() as int];
        let ghost mut flags: Seq<bool> = seq![false];
        let mut i: usize = 0;
        while i < hostiles.len()
            invariant
                self.wf(),
                i <= hostiles@.len(),
                player == s0.player,
                self@ == (SimState { entities: self@.entities, combatants: self@.combatants, paused: self@.paused, ..s0 }),
                self@.entities.dom() == s0.entities.dom(),
                self@.combatants.dom() == s0.combatants.dom(),
                forall|k: u64| k != s0.player.0 && #[trigger] s0.combatants.contains_key(k) ==> self@.combatants[k]
                    == s0.combatants[k],
                events@.len() >= base.len(),
                events@.subrange(0, base.len() as int) == base,
                forall|n: int| base.len() <= n < events@.len() ==> retaliation_notice(s0, #[trigger] events@[n]),
                !player_attacked ==> forall|n: int| base.len() <= n < events@.len() ==> !(#[trigger] events@[n] is Damaged),
                forall|a: int, b: int|
                    base.len() <= a < b < events@.len() ==> !(#[trigger] events@[a] is Damaged && #[trigger] events@[b] is Damaged),
                hostile_trace(s0, hostiles@.take(i as int), trace, marks, flags, events@),
                marks[0] == base.len(),
                marks[i as int] == events@.len(),
                trace[i as int] == self@,
                flags[i as int] == player_attacked,
                changed == (self@ != s0),
                forall|k: u64| k != s0.player.0 && s0.combatants.contains_key(k) ==> #[trigger] self@.combatants[k] == s0.combatants[k],
                s0.combatants.contains_key(s0.player.0) ==> self@.combatants[s0.player.0].health <= s0.combatants[s0.player.0].health,
                forall|j: int| i <= j < hostiles@.len() ==> self@.entities[#[trigger] hostiles@[j]] == s0.entities[hostiles@[j]],
                forall|a: int, b: int| 0 <= a < b < hostiles@.len() ==> hostiles@[a] < hostiles@[b],
            decreases hostiles@.len() - i,
        {
            let hostile = EntityId(hostiles[i]);
            let ghost pre = self@;
            let ghost pre_events = events@;
            let ghost pre_attacked = player_attacked;
            let alive = match self.combatants.get(&player.0) {
                None => false,
                Some(c) => c.health > 0,
            };
            let there = match self.entities.get(&hostile.0) {
                None => None,
                Some(e) => Some(e.position),
            };
            let here = match self.entities.get(&player.0) {
                None => None,
                Some(e) => Some(e.position),
            };
            if alive && there.is_some() && here.is_some() {
                let there = there.unwrap();
                let here = here.unwrap();
                if there.map == here.map && there.grid.z == here.grid.z {
                    if taxicab_within(there.grid, here.grid, 1) && !player_attacked {
                        let ghost before = events@;
                        self.deal_damage(hostile, player, 2, CombatMethod::Retaliation, events);
                        player_attacked = true;
                        changed = true;
                        proof {
                            assert(self@.combatants[player.0].health < pre.combatants[player.0].health);
                            assert(self@ != s0);
                            assert(events@.subrange(0, base.len() as int) =~= base);
                            assert forall|n: int| base.len() <= n < events@.len() implies retaliation_notice(s0, #[trigger] events@[n]) by {
                                if n >= before.len() {
                                    assert(events@[n] == damage_notices(pre, hostile, player, 2, CombatMethod::Retaliation)[n - before.len()]);
                                } else {
                                    assert(events@[n] == before[n]);
                                }
                            }
                            assert forall|a: int, b: int|
                                base.len() <= a < b < events@.len() implies !(#[trigger] events@[a] is Damaged && #[trigger] events@[b] is Damaged) by {
                                if a < before.len() {
                                    assert(events@[a] == before[a]);
                                    assert(!(before[a] is Damaged));
                                } else {
                                    assert(events@[a] == damage_notices(pre, hostile, player, 2, CombatMethod::Retaliation)[a - before.len()]);
                                    assert(events@[b] == damage_notices(pre, hostile, player, 2, CombatMethod::Retaliation)[b - before.len()]);
                                }
                            }
                            assert(events@.subrange(pre_events.len() as int, events@.len() as int) =~= damage_notices(
                                pre,
                                hostile,
                                player,
                                2,
                                CombatMethod::Retaliation,
                            ));
                        }
                    } else if taxicab_within(there.grid, here.grid, HOSTILE_NOTICE_RANGE) {
                        match self.hostile_step_toward(hostile, here.grid) {
                            None => {},
                            Some(next) => {
                                proof {
                                    assert(crate::geometry::distance_fits(pre.entities[hostile.0].position.grid, next));
                                }
                                let moved = self.move_entity(hostile, WorldPosition { map: there.map, grid: next });
                                changed = changed || moved;
                                proof {
                                    assert(moved);
                                    assert(pre.entities[hostile.0] == s0.entities[hostile.0]);
                                    assert(self@.entities[hostile.0].position.grid != s0.entities[hostile.0].position.grid);
                                    assert(self@ != s0);
                                    assert(self@ == entity_stepped(pre, hostile.0, WorldPosition { map: there.map, grid: next }));
                                    assert(self@.entities.dom() =~= s0.entities.dom());
                                }
                            },
                        }
                    }
                }
            }
            proof {
                let added = events@.subrange(pre_events.len() as int, events@.len() as int);
                if events@.len() == pre_events.len() {
                    assert(added.len() == 0);
                }
                assert(hostile_acted(pre, hostile.0, pre_attacked, self@, added, player_attacked));
                let ids_before = hostiles@.take(i as int);
                let ids_after = hostiles@.take(i + 1);
                let trace2 = trace.push(self@);
                let marks2 = marks.push(events@.len() as int);
                let flags2 = flags.push(player_attacked);
                assert(ids_after =~= ids_before.push(hostiles@[i as int]));
                assert forall|j: int| 0 <= j < ids_after.len() implies marks2[j] <= marks2[j + 1] && #[trigger] hostile_acted(
                    trace2[j],
                    ids_after[j],
                    flags2[j],
                    trace2[j + 1],
                    events@.subrange(marks2[j], marks2[j + 1]),
                    flags2[j + 1],
                ) by {
                    if j < i {
                        assert(hostile_acted(trace[j], ids_before[j], flags[j], trace[j + 1], pre_events.subrange(marks[j], marks[j + 1]), flags[j + 1]));
                        assert(events@.subrange(marks2[j], marks2[j + 1]) =~= pre_events.subrange(marks[j], marks[j + 1]));
                    }
                }
                assert(trace2[0] == s0);
                assert(!flags2[0]);
                assert forall|j: int| 0 <= j < ids_after.len() implies #[trigger] marks2[j] <= marks2[j + 1] by {
                    if j < i {
                        assert(hostile_acted(trace[j], ids_before[j], flags[j], trace[j + 1], pre_events.subrange(marks[j], marks[j + 1]), flags[j + 1]));
                        assert(marks[j] <= marks[j + 1]);
                    }
                }
                assert forall|j: int| 0 <= j <= ids_after.len() implies 0 <= #[trigger] marks2[j] <= events@.len() by {
                    if j <= i {
                        assert(marks2[j] == marks[j]);
                        assert(0 <= marks[j] <= pre_events.len());
                    }
                }
                trace = trace2;
                marks = marks2;
                flags = flags2;
                assert(hostile_trace(s0, ids_after, trace, marks, flags, events@));
            }
            i = i + 1;
        }
        proof {
            assert(hostiles@.take(hostiles@.len() as int) =~= hostiles@);
        }
        changed
    }

    fn healer_ahead(&self, at: WorldPosition, a: u64, b: u64) -> (before: bool)
        requires
            self@.entities.contains_key(a),
            self@.entities.contains_key(b),
        ensures
            before == healer_before(self@, at, a, b),
    {
        let pa = match self.entities.get(&a) {
            None => at,
            Some(e) => e.position,
        };
        let pb = match self.entities.get(&b) {
            None => at,
            Some(e) => e.position,
        };
        let a0 = pa.map != at.map;
        let b0 = pb.map != at.map;
        if a0 != b0 {
            return !a0;
        }
        let a1 = pa.grid.z != at.grid.z;
        let b1 = pb.grid.z != at.grid.z;
        if a1 != b1 {
            return !a1;
        }
        let da: i64 = if !a0 && !a1 {
            taxicab_i64(pa.grid, at.grid)
        } else {
            i32::MAX as i64
        };
        let db: i64 = if !b0 && !b1 {
            taxicab_i64(pb.grid, at.grid)
        } else {
            i32::MAX as i64
        };
        if da != db {
            return da < db;
        }
        a <= b
    }

    fn find_healer(&self) -> (found: Option<u64>)
        requires
            self.wf(),
        ensures
            found == chosen_healer(self@),
            found is Some ==> available_healer(self@, found.unwrap()),
    {
        let at = match self.entities.get(&self.player.0) {
            None => {
                return None;
            },
            Some(e) => e.position,
        };
        let members = set_members(&self.healers);
        let mut best: Option<u64> = None;
        let mut i: usize = 0;
        while i < members.len()
            invariant
                i <= members@.len(),
                members@.to_set() == self@.healers,
                strictly_increasing(members@),
                at == player_position(self@),
                match best {
                    None => forall|j: int| 0 <= j < i ==> !available_healer(self@, #[trigger] members@[j]),
                    Some(b) => {
                        &&& available_healer(self@, b)
                        &&& forall|j: int|
                            0 <= j < i && available_healer(self@, #[trigger] members@[j]) ==> healer_before(
                                self@,
                                at,
                                b,
                                members@[j],
                            )
                    },
                },
            decreases members@.len() - i,
        {
            let k = members[i];
            proof {
                assert(members@.to_set().contains(k));
            }
            if self.entities.contains_key(&k) {
                let take = match best {
                    None => true,
                    Some(b) => !self.healer_ahead(at, b, k),
                };
                if take {
                    proof {
                        assert forall|j: int|
                            0 <= j < i + 1 && available_healer(self@, #[trigger] members@[j]) implies healer_before(
                            self@,
                            at,
                            k,
                            members@[j],
                        ) by {
                            if j < i {
                                let b = best.unwrap();
                                assert(healer_before(self@, at, b, members@[j]));
                                assert(!healer_before(self@, at, b, k));
                            }
                        }
                    }
                    best = Some(k);
                }
            }
            i = i + 1;
        }
        proof {
            match best {
                None => {
                    assert forall|k: u64| !available_healer(self@, k) by {
                        if available_healer(self@, k) {
                            assert(members@.to_set().contains(k));
                            let j = choose|j: int| 0 <= j < members@.len() && members@[j] == k;
                            assert(!available_healer(self@, members@[j]));
                        }
                    }
                },
                Some(b) => {
                    assert forall|j: u64| available_healer(self@, j) implies healer_before(self@, at, b, j) by {
                        assert(members@.to_set().contains(j));
                        let jj = choose|jj: int| 0 <= jj < members@.len() && members@[jj] == j;
                        assert(available_healer(self@, members@[jj]));
                    }
                    let c = choose|c: u64|
                        available_healer(self@, c) && forall|j: u64| available_healer(self@, j) ==> healer_before(
                            self@,
                            at,
                            c,
                            j,
                        );
                    assert(healer_before(self@, at, c, b) && healer_before(self@, at, b, c));
                },
            }
        }
        best
    }

    fn spot_free(&self, healer: u64, map: MapId, grid: GridPos) -> (free: bool)
        requires
            self.wf(),
        ensures
            free == recovery_spot(self@, healer, map, grid),
    {
        if !self.cell_open_exec(WorldPosition { map, grid }) {
            return false;
        }
        let keys = map_keys(&self.entities);
        let mut i: usize = 0;
        while i < keys.len()
            invariant
                i <= keys@.len(),
                keys@.to_set() == self@.entities.dom(),
                forall|j: int|
                    0 <= j < i ==> {
                        let k = #[trigger] keys@[j];
                        !(k != self@.player.0 && k != healer && self@.entities[k].position.map == map
                            && self@.entities[k].position.grid == grid && still_standing(self@, k))
                    },
            decreases keys@.len() - i,
        {
            let k = keys[i];
            proof {
                assert(keys@.to_set().contains(k));
            }
            let here = match self.entities.get(&k) {
                None => false,
                Some(e) => e.position.map == map && e.position.grid == grid,
            };
            if k != self.player.0 && k != healer && here && self.standing(k) {
                return false;
            }
            i = i + 1;
        }
        proof {
            assert forall|k: u64|
                !(#[trigger] self@.entities.contains_key(k) && k != self@.player.0 && k != healer
                    && self@.entities[k].position.map == map && self@.entities[k].position.grid == grid
                    && still_standing(self@, k)) by {
                if self@.entities.contains_key(k) {
                    assert(keys@.to_set().contains(k));
                    let j = choose|j: int| 0 <= j < keys@.len() && keys@[j] == k;
                    assert(keys@[j] == k);
                }
            }
        }
        true
    }

    fn recovery_destination(&self, healer: u64) -> (destination: WorldPosition)
        requires
            self.wf(),
            self@.entities.contains_key(healer),
        ensures
            destination == recovery_destination_of(self@, healer),
    {
        let h = match self.entities.get(&healer) {
            None => {
                return WorldPosition { map: MapId(0), grid: GridPos { x: 0, y: 0, z: 0 } };
            },
            Some(e) => e.position,
        };
        let mut d: usize = 0;
        while d < 4
            invariant
                d <= 4,
                self.wf(),
                h == self@.entities[healer].position,
                d > 0 ==> !(step_from(h.grid, Direction::North) is Some && recovery_spot(
                    self@,
                    healer,
                    h.map,
                    step_from(h.grid, Direction::North).unwrap(),
                )),
                d > 1 ==> !(step_from(h.grid, Direction::East) is Some && recovery_spot(
                    self@,
                    healer,
                    h.map,
                    step_from(h.grid, Direction::East).unwrap(),
                )),
                d > 2 ==> !(step_from(h.grid, Direction::South) is Some && recovery_spot(
                    self@,
                    healer,
                    h.map,
                    step_from(h.grid, Direction::South).unwrap(),
                )),
                d > 3 ==> !(step_from(h.grid, Direction::West) is Some && recovery_spot(
                    self@,
                    healer,
                    h.map,
                    step_from(h.grid, Direction::West).unwrap(),
                )),
            decreases 4 - d,
        {
            let next = neighbor(h.grid.x, h.grid.y, d);
            let dir = if d == 0 {
                Direction::North
            } else if d == 1 {
                Direction::East
            } else if d == 2 {
                Direction::South
            } else {
                Direction::West
            };
            match next {
                None => {},
                Some((nx, ny)) => {
                    let grid = GridPos { x: nx, y: ny, z: h.grid.z };
                    assert(step_from(h.grid, dir) == Some(grid));
                    if self.spot_free(healer, h.map, grid) {
                        return WorldPosition { map: h.map, grid };
                    }
                },
            }
            d = d + 1;
        }
        h
    }

    /// Brings a defeated player back to life beside the preferred healer.
    fn revive_player_at_nearest_healer(&mut self, events: &mut Vec<SimulationEvent>) -> (revived: bool)
        requires
            old(self).wf(),
        ensures
            final(self).wf(),
            final(self)@ == revive_result(old(self)@).0,
            final(events)@ == old(events)@ + revive_result(old(self)@).1,
            revived == (revive_result(old(self)@).1.len() > 0),
    {
        let player = self.player;
        let c = match self.combatants.get(&player.0) {
            None => {
                assert(events@ =~= old(events)@ + revive_result(old(self)@).1);
                return false;
            },
            Some(c) => *c,
        };
        if c.health > 0 {
            assert(events@ =~= old(events)@ + revive_result(old(self)@).1);
            return false;
        }
        let healer = match self.find_healer() {
            None => {
                assert(events@ =~= old(events)@ + revive_result(old(self)@).1);
                return false;
            },
            Some(h) => h,
        };
        let destination = self.recovery_destination(healer);
        let facing = match self.entities.get(&player.0) {
            None => Direction::South,
            Some(e) => e.facing,
        };
        let ghost s0 = self@;
        let restored = Combatant { health: c.max_health, ..c };
        proof {
            assert(s0.combatants.contains_key(player.0));
            assert(c == s0.combatants[player.0]);
            lemma_wf_combatant_update(s0, player.0, restored);
        }
        self.combatants.insert(player.0, restored);
        self.place_player(destination, facing);
        self.paused = false;
        events.push(
            SimulationEvent::RevivedAtHealer { entity: player, healer: EntityId(healer), health: c.max_health, destination },
        );
        proof {
            assert(self@ =~= revive_result(s0).0);
            assert(events@ =~= old(events)@ + revive_result(s0).1);
        }
        true
    }
}


/// Handing goods to `to` moves legal title only with it: title passes when
/// the player held clean title, a theft mark clears only when the goods go
/// back to their legal owner, and otherwise the goods keep their owner and mark.
pub open spec fn gift_keeps_title(a: SimState, b: SimState, item: ItemId, to: EntityId, survivor: u64) -> bool {
    &&& holds_title(a, item.0) ==> owner_of(b, survivor) == Some(to) && !b.stolen.contains(survivor)
    &&& !holds_title(a, item.0) && owner_of(a, item.0) == Some(to) ==> owner_of(b, survivor) == Some(to)
        && !b.stolen.contains(survivor)
    &&& !holds_title(a, item.0) && owner_of(a, item.0) != Some(to) ==> owner_of(b, survivor) == owner_of(a, item.0)
        && b.stolen.contains(survivor) == a.stolen.contains(item.0)
}

/// Taking goods keeps their legal owner and marks them stolen unless the
/// player owns them.
pub open spec fn taking_marks_theft(a: SimState, b: SimState, item: ItemId, survivor: u64) -> bool {
    &&& owner_of(b, survivor) == owner_of(a, item.0)
    &&& b.stolen.contains(survivor) == (a.stolen.contains(item.0) || owner_of(a, item.0) != Some(a.player))
}

/// The goods a give command hands over and the quantity.
pub open spec fn gift_of(s: SimState, command: GameCommand) -> Option<(ItemId, EntityId, u16)> {
    match command {
        GameCommand::Give { item, to } => Some((item, to, stack_quantity_of(s, item.0))),
        GameCommand::GiveQuantity { item, to, quantity } => Some((item, to, quantity)),
        _ => None,
    }
}

/// The goods a take command takes and the quantity.
pub open spec fn taking_of(s: SimState, command: GameCommand) -> Option<(ItemId, EntityId, u16)> {
    match command {
        GameCommand::Take { item, from } => Some((item, from, stack_quantity_of(s, item.0))),
        GameCommand::TakeQuantity { item, from, quantity } => Some((item, from, quantity)),
        _ => None,
    }
}

/// Commands that only handle items, which a paused game still accepts.
pub open spec fn works_while_paused(command: GameCommand) -> bool {
    match command {
        GameCommand::Equip(_) | GameCommand::UseItem(_) | GameCommand::Study(_) | GameCommand::Give { .. }
        | GameCommand::GiveQuantity { .. } | GameCommand::Take { .. } | GameCommand::TakeQuantity { .. }
        | GameCommand::OpenContainer(_) | GameCommand::UnlockContainer { .. } | GameCommand::Place { .. }
        | GameCommand::PlaceQuantity { .. } | GameCommand::Drop(_) | GameCommand::DropQuantity { .. }
        | GameCommand::Read(_) | GameCommand::Eat(_) | GameCommand::Drink(_) | GameCommand::Experiment { .. } => true,
        _ => false,
    }
}

/// A move that involves no fight: a refused step changes nothing, an open
/// step walks. `None` when a hostile stands in the way and is attacked instead.
pub open spec fn move_without_fight(s: SimState, direction: Direction) -> Option<(SimState, Outcome)> {
    let here = player_position(s);
    match step_from(here.grid, direction) {
        None => Some(no_effect(s)),
        Some(destination) => if first_blocker(s, here.map, destination) is Some {
            None
        } else if !cell_open(s, WorldPosition { map: here.map, grid: destination }) {
            Some(no_effect(s))
        } else {
            Some(walk_result(s, direction, destination))
        },
    }
}

/// What a command does before the world takes its turn, for the commands
/// whose effect is a function of the state alone.
pub open spec fn immediate_result(s: SimState, command: GameCommand) -> Option<(SimState, Outcome)> {
    match command {
        GameCommand::Equip(item) => Some(equip_result(s, s.player, item)),
        GameCommand::UseItem(item) => Some(use_item_result(s, s.player, item)),
        GameCommand::Study(item) => Some(study_result(s, item)),
        GameCommand::OpenContainer(container) => Some(open_container_result(s, container)),
        GameCommand::UnlockContainer { container, key } => Some(unlock_result(s, container, key)),
        GameCommand::Read(item) => Some(read_result(s, item)),
        GameCommand::Eat(item) => Some(eat_result(s, item)),
        GameCommand::Drink(item) => Some(drink_result(s, item)),
        GameCommand::Experiment { first, second } => Some(experiment_result(s, first, second)),
        GameCommand::Traverse => Some(traverse_result(s)),
        GameCommand::Wait => Some(
            (
                SimState { tick: s.tick.saturating_add(1), ..s },
                Outcome { advanced_time: true, changed_world: false, events: Seq::empty() },
            ),
        ),
        GameCommand::Move(direction) => move_without_fight(s, direction),
        _ => None,
    }
}

/// The hostiles' part of a world turn, as `advance_hostiles` guarantees it.
pub open spec fn hostile_turn(a: SimState, b: SimState, before: Seq<SimulationEvent>, after: Seq<SimulationEvent>) -> bool {
    &&& b == (SimState { entities: b.entities, combatants: b.combatants, paused: b.paused, ..a })
    &&& b.entities.dom() == a.entities.dom()
    &&& b.combatants.dom() == a.combatants.dom()
    &&& forall|k: u64| k != a.player.0 && #[trigger] a.combatants.contains_key(k) ==> b.combatants[k] == a.combatants[k]
    &&& after.len() >= before.len()
    &&& after.subrange(0, before.len() as int) == before
    &&& forall|i: int| before.len() <= i < after.len() ==> retaliation_notice(a, #[trigger] after[i])
    &&& forall|i: int, j: int|
        before.len() <= i < j < after.len() ==> !(#[trigger] after[i] is Damaged && #[trigger] after[j] is Damaged)
    &&& hostiles_played(a, b, before, after)
}

/// The world's turn after a command that took time: needs grow, hostiles
/// act, and a defeated player is revived beside a healer. The world counts as
/// changed when the command changed it or a hostile acted.
pub open spec fn turn_passed(mid: SimState, done: Outcome, b: SimState, o: Outcome) -> bool {
    exists|acted: SimState, notices: Seq<SimulationEvent>|
        {
            &&& hostile_turn(after_needs(mid), acted, done.events + needs_notices(mid), notices)
            &&& b == revive_result(acted).0
            &&& o.events == notices + revive_result(acted).1
            &&& o.advanced_time
            &&& o.changed_world == (done.changed_world || acted != after_needs(mid))
        }
}

impl Simulation {
    /// Whether an identity is still free for a split stack and for a dropped
    /// item's holder, which every command needs before it runs.
    pub fn identities_available(&self) -> (available: bool)
        ensures
            available == (split_id_available(self@) && loose_entity_available(self@)),
    {
        let mut item: u64 = self.next_split_item_id;
        while item < u64::MAX && self.items.contains_key(&item)
            invariant
                self@.next_split_item_id <= item,
                forall|c: u64| self@.next_split_item_id <= c < item ==> self@.items.contains_key(c),
            decreases u64::MAX - item,
        {
            item = item + 1;
        }
        let split_free = !self.items.contains_key(&item);
        let mut holder: u64 = self.next_loose_item_entity;
        while holder < u64::MAX && self.entities.contains_key(&holder)
            invariant
                self@.next_loose_item_entity <= holder,
                forall|c: u64| self@.next_loose_item_entity <= c < holder ==> self@.entities.contains_key(c),
            decreases u64::MAX - holder,
        {
            holder = holder + 1;
        }
        let holder_free = !self.entities.contains_key(&holder);
        proof {
            if split_free {
                assert(item >= self@.next_split_item_id && !self@.items.contains_key(item));
            } else {
                assert(item == u64::MAX);
                assert(forall|c: u64| c >= self@.next_split_item_id ==> self@.items.contains_key(c));
            }
            if holder_free {
                assert(holder >= self@.next_loose_item_entity && !self@.entities.contains_key(holder));
            } else {
                assert(holder == u64::MAX);
                assert(forall|c: u64| c >= self@.next_loose_item_entity ==> self@.entities.contains_key(c));
            }
        }
        split_free && holder_free
    }

    /// Applies one player command, then, when it took time, lets the world
    /// take its turn.
    #[verifier::spinoff_prover]
    #[verifier::rlimit(80)]
    pub fn apply_command(&mut self, command: GameCommand) -> (outcome: CommandOutcome)
        requires
            old(self).wf(),
            split_id_available(old(self)@),
            loose_entity_available(old(self)@),
        ensures
            final(self).wf(),
            command == GameCommand::Pause ==> final(self)@ == (SimState { paused: !old(self)@.paused, ..old(self)@ })
                && !outcome.advanced_time && outcome.changed_world && outcome.events@.len() == 0,
            command != GameCommand::Pause && old(self)@.paused && !works_while_paused(command) ==> is_idle(outcome)
                && final(self)@ == old(self)@,
            command != GameCommand::Pause && !(old(self)@.paused && !works_while_paused(command)) && immediate_result(
                old(self)@,
                command,
            ) is Some ==> {
                let (mid, done) = immediate_result(old(self)@, command).unwrap();
                if done.advanced_time {
                    turn_passed(mid, done, final(self)@, outcome_of(outcome))
                } else {
                    final(self)@ == mid && outcome_of(outcome) == done
                }
            },
            command != GameCommand::Pause && !(old(self)@.paused && !works_while_paused(command)) ==> exists|
                mid: SimState,
                resolved: CommandOutcome,
            |
                #[trigger] resolution_settled(old(self)@, command, mid, resolved) && continued(
                    mid,
                    outcome_of(resolved),
                    final(self)@,
                    outcome_of(outcome),
                ),
            final(self)@.entities.contains_key(final(self)@.player.0),
            final(self)@.player == old(self)@.player,
            ({
                let gift = gift_of(old(self)@, command);
                let s = old(self)@;
                gift is Some && adjacent(s, s.player.0, gift.unwrap().1 .0) && quantity_transfer_check(
                    s,
                    gift.unwrap().0,
                    s.player,
                    gift.unwrap().1,
                    gift.unwrap().2,
                ) is None ==> outcome.events@.len() >= 1 && gift_keeps_title(
                    s,
                    final(self)@,
                    gift.unwrap().0,
                    gift.unwrap().1,
                    moved_item(outcome.events@[0]).0,
                )
            }),
            ({
                let taking = taking_of(old(self)@, command);
                let s = old(self)@;
                taking is Some && adjacent(s, s.player.0, taking.unwrap().1 .0) && !(s.containers.contains_key(
                    taking.unwrap().1 .0,
                ) && s.containers[taking.unwrap().1 .0].locked) && quantity_transfer_check(
                    s,
                    taking.unwrap().0,
                    taking.unwrap().1,
                    s.player,
                    taking.unwrap().2,
                ) is None ==> outcome.events@.len() >= 1 && taking_marks_theft(
                    s,
                    final(self)@,
                    taking.unwrap().0,
                    moved_item(outcome.events@[0]).0,
                )
            }),
    {
        if command == GameCommand::Pause {
            self.paused = !self.paused;
            return CommandOutcome { advanced_time: false, changed_world: true, events: Vec::new() };
        }
        let allowed = match command {
            GameCommand::Equip(_) | GameCommand::UseItem(_) | GameCommand::Study(_) | GameCommand::Give { .. }
            | GameCommand::GiveQuantity { .. } | GameCommand::Take { .. } | GameCommand::TakeQuantity { .. }
            | GameCommand::OpenContainer(_) | GameCommand::UnlockContainer { .. } | GameCommand::Place { .. }
            | GameCommand::PlaceQuantity { .. } | GameCommand::Drop(_) | GameCommand::DropQuantity { .. }
            | GameCommand::Read(_) | GameCommand::Eat(_) | GameCommand::Drink(_) | GameCommand::Experiment { .. } => true,
            _ => false,
        };
        if self.paused && !allowed {
            return idle();
        }
        let player = self.player;
        let resolved = match command {
            GameCommand::Move(direction) => self.resolve_move(direction),
            GameCommand::Attack(target) => self.resolve_melee(player, target),
            GameCommand::FireAt(target) => self.resolve_ranged(player, target),
            GameCommand::Equip(item) => self.resolve_equip(player, item),
            GameCommand::UseItem(item) => self.resolve_use_item(player, item),
            GameCommand::Study(item) => self.resolve_study(item),
            GameCommand::Give { item, to } => {
                let quantity = self.stack_quantity(item);
                self.resolve_give(item, to, quantity)
            },
            GameCommand::GiveQuantity { item, to, quantity } => self.resolve_give(item, to, quantity),
            GameCommand::Take { item, from } => {
                let quantity = self.stack_quantity(item);
                self.resolve_take(item, from, quantity)
            },
            GameCommand::TakeQuantity { item, from, quantity } => self.resolve_take(item, from, quantity),
            GameCommand::OpenContainer(container) => self.resolve_open_container(container),
            GameCommand::UnlockContainer { container, key } => self.resolve_unlock_container(container, key),
            GameCommand::Place { item, container } => {
                let quantity = self.stack_quantity(item);
                self.resolve_place(item, container, quantity)
            },
            GameCommand::PlaceQuantity { item, container, quantity } => self.resolve_place(item, container, quantity),
            GameCommand::Drop(item) => {
                let quantity = self.stack_quantity(item);
                self.resolve_drop(item, quantity)
            },
            GameCommand::DropQuantity { item, quantity } => self.resolve_drop(item, quantity),
            GameCommand::Read(item) => self.resolve_read(item),
            GameCommand::Eat(item) => self.resolve_eat(item),
            GameCommand::Drink(item) => self.resolve_drink(item),
            GameCommand::Experiment { first, second } => self.resolve_experiment(first, second),
            GameCommand::Cast { formula, target } => self.resolve_cast(formula, target),
            GameCommand::Traverse => self.resolve_traverse(),
            GameCommand::TurnInQuest(quest) => self.resolve_quest_turn_in(quest),
            GameCommand::Wait => {
                self.tick = self.tick.saturating_add(1);
                CommandOutcome { advanced_time: true, changed_world: false, events: Vec::new() }
            },
            GameCommand::Pause => idle(),
        };
        let ghost mid = self@;
        let ghost done = outcome_of(resolved);
        let ghost settled_with = resolved;
        proof {
            assert(resolution_settled(old(self)@, command, mid, settled_with));
        }
        let CommandOutcome { advanced_time, changed_world, mut events } = resolved;
        if !advanced_time {
            return CommandOutcome { advanced_time, changed_world, events };
        }
        let ghost first = events@;
        self.advance_player_needs(&mut events);
        let ghost needs_done = self@;
        let ghost needs_events = events@;
        let changed = self.advance_hostiles(&mut events);
        let ghost acted = self@;
        let ghost notices = events@;
        self.revive_player_at_nearest_healer(&mut events);
        proof {
            assert(self@.legal_owners == mid.legal_owners);
            assert(self@.stolen == mid.stolen);
            if first.len() > 0 {
                assert(needs_events[0] == first[0]);
                assert(notices.subrange(0, needs_events.len() as int)[0] == needs_events[0]);
                assert(notices[0] == first[0]);
                assert(events@[0] == notices[0]);
            }
        }
        let outcome = CommandOutcome { advanced_time: true, changed_world: changed_world || changed, events };
        proof {
            assert(needs_done == after_needs(mid));
            assert(needs_events == done.events + needs_notices(mid));
            assert(hostile_turn(after_needs(mid), acted, done.events + needs_notices(mid), notices));
            assert(continued(mid, outcome_of(settled_with), self@, outcome_of(outcome)));
        }
        outcome
    }
}


/// The terrain cell of a terrain kind, with its blocking flags.
pub open spec fn terrain_cell(t: TerrainKind) -> TerrainCell {
    TerrainCell {
        terrain: t,
        movement_blocked: crate::geometry::terrain_blocks_movement(t),
        sight_blocked: crate::geometry::terrain_blocks_sight(t),
    }
}

/// Whether `p` lies on the ground layer within the rectangle.
pub open spec fn in_rect(p: GridPos, min_x: int, min_y: int, max_x: int, max_y: int) -> bool {
    p.z == 0 && min_x <= p.x <= max_x && min_y <= p.y <= max_y
}

/// The terrain a building paints at `p`: road at the entrance, walls on the
/// boundary, stone floor inside.
pub open spec fn building_terrain(p: GridPos, min_x: int, min_y: int, max_x: int, max_y: int, entrance: GridPos) -> TerrainKind {
    if p == entrance {
        TerrainKind::Road
    } else if p.x == min_x || p.x == max_x || p.y == min_y || p.y == max_y {
        TerrainKind::Wall
    } else {
        TerrainKind::StoneFloor
    }
}

/// Rows above row `y` of the demo box that draw for their open land (the
/// three road rows draw nothing).
pub open spec fn demo_rows_before(y: int) -> int {
    if y <= -1 {
        y + 36
    } else if y <= 2 {
        35
    } else {
        y + 33
    }
}

/// Cells left of column `x` in a drawing row that draw (the three road
/// columns draw nothing).
pub open spec fn demo_columns_before(x: int) -> int {
    if x <= -1 {
        x + 48
    } else if x <= 2 {
        47
    } else {
        x + 45
    }
}

/// The terrain stream's state after `n` draws for a campaign seed.
pub open spec fn demo_stream_after(seed: u64, n: int) -> u64 {
    ((crate::random::mix64_spec(seed ^ crate::random::TERRAIN_STREAM) as int + n * crate::random::GOLDEN_GAMMA as int)
        % 0x1_0000_0000_0000_0000) as u64
}

/// Open land at (`x`, `y`) is dirt when its draw from the terrain stream, the
/// one after all those of earlier cells, comes up one in forty-one.
pub open spec fn demo_dirt_at(seed: u64, x: int, y: int) -> bool {
    crate::random::mix64_spec(demo_stream_after(seed, demo_rows_before(y) * 94 + demo_columns_before(x) + 1)) % 41 == 0
}

/// One more draw advances the terrain stream by the golden gamma.
proof fn lemma_demo_stream_step(seed: u64, n: int)
    requires
        n >= 0,
    ensures
        demo_stream_after(seed, n).wrapping_add(crate::random::GOLDEN_GAMMA) == demo_stream_after(seed, n + 1),
{
    let m: int = 0x1_0000_0000_0000_0000;
    let base = crate::random::mix64_spec(seed ^ crate::random::TERRAIN_STREAM) as int;
    let g = crate::random::GOLDEN_GAMMA as int;
    let x = base + n * g;
    vstd::arithmetic::div_mod::lemma_mod_bound(x, m);
    vstd::arithmetic::div_mod::lemma_mod_bound(x + g, m);
    vstd::arithmetic::div_mod::lemma_add_mod_noop(x, g, m);
    vstd::arithmetic::div_mod::lemma_small_mod(g as nat, m as nat);
    assert(n * g + g == (n + 1) * g) by (nonlinear_arith);
    let r = x % m;
    if r + g >= m {
        vstd::arithmetic::div_mod::lemma_small_mod((r + g - m) as nat, m as nat);
        vstd::arithmetic::div_mod::lemma_mod_sub_multiples_vanish(r + g, m);
    } else {
        vstd::arithmetic::div_mod::lemma_small_mod((r + g) as nat, m as nat);
    }
}

/// The demo's base terrain at (`x`, `y`) before any building: the river
/// columns (a bridge where the road crosses), the crossroads, or open land,
/// dirt or grass as the campaign's terrain stream draws it.
pub open spec fn demo_base_terrain(seed: u64, x: int, y: int, t: TerrainKind) -> bool {
    if x == 14 || x == 15 {
        t == if -1 <= y <= 1 {
            TerrainKind::Bridge
        } else {
            TerrainKind::Water
        }
    } else if -1 <= x <= 1 || -1 <= y <= 1 {
        t == TerrainKind::Road
    } else {
        t == if demo_dirt_at(seed, x, y) {
            TerrainKind::Dirt
        } else {
            TerrainKind::Grass
        }
    }
}

/// The name of each of the demo town's seven landmarks.
pub open spec fn demo_landmark_name(i: int) -> Seq<char> {
    if i == 0 {
        "Trading House"@
    } else if i == 1 {
        "Common Granary"@
    } else if i == 2 {
        "Civic Council"@
    } else if i == 3 {
        "Hearth Guild"@
    } else if i == 4 {
        "The Wayfarer Inn"@
    } else if i == 5 {
        "Market Square"@
    } else {
        "Free River Dock"@
    }
}

/// The kind of each demo landmark.
pub open spec fn demo_landmark_kind(i: int) -> LandmarkKind {
    if i == 0 {
        LandmarkKind::Shop
    } else if i == 1 {
        LandmarkKind::Granary
    } else if i == 2 {
        LandmarkKind::CouncilHall
    } else if i == 3 {
        LandmarkKind::GuildHall
    } else if i == 4 {
        LandmarkKind::Inn
    } else if i == 5 {
        LandmarkKind::TownSquare
    } else {
        LandmarkKind::RiverDock
    }
}

/// Where each demo landmark stands: the doors of the five buildings, the
/// square and the dock.
pub open spec fn demo_landmark_cell(i: int) -> GridPos {
    let (x, y) = if i == 0 {
        (-13i32, 3i32)
    } else if i == 1 {
        (-6i32, -6i32)
    } else if i == 2 {
        (6i32, -6i32)
    } else if i == 3 {
        (-6i32, 6i32)
    } else if i == 4 {
        (6i32, 6i32)
    } else if i == 5 {
        (0i32, 0i32)
    } else {
        (19i32, 1i32)
    };
    GridPos { x, y, z: 0 }
}

/// The demo town's painted terrain at a ground cell, where anything is painted
/// over the open land: the stone square, two fields, five buildings with walls
/// and a door, and the stone dock; later paint covers earlier.
pub open spec fn demo_painted(p: GridPos) -> Option<TerrainKind> {
    if in_rect(p, 17, -3, 21, 3) {
        Some(TerrainKind::StoneFloor)
    } else if in_rect(p, 3, 6, 9, 12) {
        Some(building_terrain(p, 3, 6, 9, 12, GridPos { x: 6i32, y: 6i32, z: 0i16 }))
    } else if in_rect(p, -9, 6, -3, 12) {
        Some(building_terrain(p, -9, 6, -3, 12, GridPos { x: -6i32, y: 6i32, z: 0i16 }))
    } else if in_rect(p, 3, -12, 9, -6) {
        Some(building_terrain(p, 3, -12, 9, -6, GridPos { x: 6i32, y: -6i32, z: 0i16 }))
    } else if in_rect(p, -9, -12, -3, -6) {
        Some(building_terrain(p, -9, -12, -3, -6, GridPos { x: -6i32, y: -6i32, z: 0i16 }))
    } else if in_rect(p, -16, 3, -11, 8) {
        Some(building_terrain(p, -16, 3, -11, 8, GridPos { x: -13i32, y: 3i32, z: 0i16 }))
    } else if in_rect(p, -31, 8, -23, 17) || in_rect(p, -31, -16, -23, -7) {
        Some(TerrainKind::Farmland)
    } else if in_rect(p, -3, -3, 3, 3) {
        Some(TerrainKind::StoneFloor)
    } else {
        None
    }
}

/// The demo's cell at (`x`, `y`) on the ground layer: the painted terrain where
/// there is some, else the open land of `demo_base_terrain`, with the usual
/// blocking flags.
pub open spec fn demo_terrain_fits(seed: u64, x: int, y: int, cell: Option<TerrainCell>) -> bool {
    let p = GridPos { x: x as i32, y: y as i32, z: 0 };
    match cell {
        None => false,
        Some(c) => c == terrain_cell(c.terrain) && match demo_painted(p) {
            Some(t) => c.terrain == t,
            None => demo_base_terrain(seed, x, y, c.terrain),
        },
    }
}

/// The people of the demo town: the player and eight townsfolk.
pub open spec fn demo_population(map: MapId) -> Map<u64, Entity> {
    Map::new(
        |k: u64| 1 <= k <= 9,
        |k: u64|
            Entity {
                id: EntityId(k),
                kind: if k == 1 {
                    EntityKind::Player
                } else {
                    EntityKind::Character
                },
                position: WorldPosition { map, grid: demo_home(k) },
                facing: if k == 1 {
                    Direction::East
                } else {
                    Direction::South
                },
            },
    )
}

/// Where each demo inhabitant starts.
pub open spec fn demo_home(k: u64) -> GridPos {
    let (x, y) = if k == 1 {
        (-20i32, 0i32)
    } else if k == 2 {
        (-13i32, 3i32)
    } else if k == 3 {
        (-6i32, -6i32)
    } else if k == 4 {
        (6i32, -6i32)
    } else if k == 5 {
        (-6i32, 6i32)
    } else if k == 6 {
        (6i32, 6i32)
    } else if k == 7 {
        (19i32, 1i32)
    } else if k == 8 {
        (-1i32, 2i32)
    } else {
        (2i32, -1i32)
    };
    GridPos { x, y, z: 0 }
}

/// Paints every ground-layer cell of the rectangle with `cell`.
fn paint_rect(map: &mut WorldMap, min_x: i32, min_y: i32, max_x: i32, max_y: i32, cell: TerrainCell)
    ensures
        final(map).id == old(map).id,
        forall|p: GridPos| #[trigger] final(map).cell_at(p) == if in_rect(p, min_x as int, min_y as int, max_x as int, max_y as int) {
            Some(cell)
        } else {
            old(map).cell_at(p)
        },
{
    let ghost start = *map;
    let mut y: i64 = min_y as i64;
    while y <= max_y as i64
        invariant
            min_y <= y <= max_y as i64 + 1 || (y == min_y && min_y > max_y),
            map.id == start.id,
            forall|p: GridPos| #[trigger] map.cell_at(p) == if in_rect(p, min_x as int, min_y as int, max_x as int, (y - 1) as int) {
                Some(cell)
            } else {
                start.cell_at(p)
            },
        decreases max_y as i64 + 1 - y,
    {
        let mut x: i64 = min_x as i64;
        while x <= max_x as i64
            invariant
                min_y <= y <= max_y,
                min_x <= x <= max_x as i64 + 1 || (x == min_x && min_x > max_x),
                map.id == start.id,
                forall|p: GridPos| #[trigger] map.cell_at(p) == if in_rect(p, min_x as int, min_y as int, max_x as int, (y - 1) as int)
                    || (p.z == 0 && p.y == y && min_x <= p.x < x) {
                    Some(cell)
                } else {
                    start.cell_at(p)
                },
            decreases max_x as i64 + 1 - x,
        {
            map.set_cell(GridPos { x: x as i32, y: y as i32, z: 0 }, cell);
            x = x + 1;
        }
        y = y + 1;
    }
}

/// Paints a walled building with floor inside and a road cell at its entrance.
fn paint_building(map: &mut WorldMap, min_x: i32, min_y: i32, max_x: i32, max_y: i32, entrance: GridPos)
    ensures
        final(map).id == old(map).id,
        forall|p: GridPos| #[trigger] final(map).cell_at(p) == if in_rect(p, min_x as int, min_y as int, max_x as int, max_y as int) {
            Some(terrain_cell(building_terrain(p, min_x as int, min_y as int, max_x as int, max_y as int, entrance)))
        } else {
            old(map).cell_at(p)
        },
{
    let ghost start = *map;
    let mut y: i64 = min_y as i64;
    while y <= max_y as i64
        invariant
            min_y <= y <= max_y as i64 + 1 || (y == min_y && min_y > max_y),
            map.id == start.id,
            forall|p: GridPos| #[trigger] map.cell_at(p) == if in_rect(p, min_x as int, min_y as int, max_x as int, (y - 1) as int) {
                Some(terrain_cell(building_terrain(p, min_x as int, min_y as int, max_x as int, max_y as int, entrance)))
            } else {
                start.cell_at(p)
            },
        decreases max_y as i64 + 1 - y,
    {
        let mut x: i64 = min_x as i64;
        while x <= max_x as i64
            invariant
                min_y <= y <= max_y,
                min_x <= x <= max_x as i64 + 1 || (x == min_x && min_x > max_x),
                map.id == start.id,
                forall|p: GridPos| #[trigger] map.cell_at(p) == if in_rect(p, min_x as int, min_y as int, max_x as int, (y - 1) as int)
                    || (p.z == 0 && p.y == y && min_x <= p.x < x) {
                    Some(terrain_cell(building_terrain(p, min_x as int, min_y as int, max_x as int, max_y as int, entrance)))
                } else {
                    start.cell_at(p)
                },
            decreases max_x as i64 + 1 - x,
        {
            let here = GridPos { x: x as i32, y: y as i32, z: 0 };
            let boundary = x == min_x as i64 || x == max_x as i64 || y == min_y as i64 || y == max_y as i64;
            let terrain = if here == entrance {
                TerrainKind::Road
            } else if boundary {
                TerrainKind::Wall
            } else {
                TerrainKind::StoneFloor
            };
            map.set_cell(here, TerrainCell::new(terrain));
            x = x + 1;
        }
        y = y + 1;
    }
}

fn demo_landmark(name: &str, kind: LandmarkKind, map: MapId, x: i32, y: i32) -> (landmark: Landmark)
    ensures
        landmark.name@ == name@,
        landmark.kind == kind,
        landmark.position == (WorldPosition { map, grid: GridPos { x, y, z: 0 } }),
{
    Landmark { name: String::from_str(name), kind, position: WorldPosition { map, grid: GridPos { x, y, z: 0 } } }
}

impl Simulation {
    /// The entities in identity order.
    #[verifier::spinoff_prover]
    #[verifier::rlimit(40)]
    pub fn entities(&self) -> (entities: Vec<&Entity>)
        requires
            self.wf(),
        ensures
            forall|i: int| 0 <= i < entities@.len() ==> #[trigger] self@.entities.contains_key(entities@[i].id.0)
                && *entities@[i] == self@.entities[entities@[i].id.0] && still_standing(self@, entities@[i].id.0),
            forall|k: u64| #[trigger] self@.entities.contains_key(k) && still_standing(self@, k) ==> exists|i: int|
                0 <= i < entities@.len() && *entities@[i] == self@.entities[k],
            forall|i: int, j: int| 0 <= i < j < entities@.len() ==> (#[trigger] entities@[i]).id.0 < (#[trigger] entities@[j]).id.0,
    {
        let keys = map_keys(&self.entities);
        let mut out: Vec<&Entity> = Vec::new();
        let mut i: usize = 0;
        while i < keys.len()
            invariant
                self.wf(),
                i <= keys@.len(),
                keys@.to_set() == self@.entities.dom(),
                strictly_increasing(keys@),
                forall|j: int| 0 <= j < out@.len() ==> #[trigger] self@.entities.contains_key(out@[j].id.0)
                    && *out@[j] == self@.entities[out@[j].id.0] && still_standing(self@, out@[j].id.0),
                forall|j: int| 0 <= j < out@.len() ==> exists|a: int| 0 <= a < i && (#[trigger] out@[j]).id.0 == keys@[a],
                forall|a: int| 0 <= a < i && #[trigger] still_standing(self@, keys@[a]) ==> exists|j: int|
                    0 <= j < out@.len() && out@[j].id.0 == keys@[a],
                forall|a: int, b: int| 0 <= a < b < out@.len() ==> (#[trigger] out@[a]).id.0 < (#[trigger] out@[b]).id.0,
            decreases keys@.len() - i,
        {
            let k = keys[i];
            proof {
                assert(keys@.to_set().contains(k));
            }
            if self.standing(k) {
                match self.entities.get(&k) {
                    None => {},
                    Some(e) => {
                        let ghost before = out@;
                        out.push(e);
                        proof {
                            let last = out@.len() - 1;
                            assert(self@.entities.contains_key(k));
                            assert(self@.entities[k].id.0 == k);
                            assert(out@[last].id.0 == k);
                            assert forall|j: int| 0 <= j < out@.len() implies #[trigger] self@.entities.contains_key(out@[j].id.0)
                                && *out@[j] == self@.entities[out@[j].id.0] && still_standing(self@, out@[j].id.0) by {
                                if j < last {
                                    assert(out@[j] == before[j]);
                                }
                            }
                            assert forall|j: int| 0 <= j < last implies (#[trigger] out@[j]).id.0 < out@[last].id.0 by {
                                assert(out@[j] == before[j]);
                                let a = choose|a: int| 0 <= a < i && before[j].id.0 == keys@[a];
                            }
                            assert forall|j: int| 0 <= j < out@.len() implies exists|a: int|
                                0 <= a < i + 1 && (#[trigger] out@[j]).id.0 == keys@[a] by {
                                if j < last {
                                    assert(out@[j] == before[j]);
                                    let a = choose|a: int| 0 <= a < i && before[j].id.0 == keys@[a];
                                }
                            }
                            assert forall|a: int| 0 <= a < i + 1 && #[trigger] still_standing(self@, keys@[a]) implies exists|j: int|
                                0 <= j < out@.len() && out@[j].id.0 == keys@[a] by {
                                if a < i {
                                    let j = choose|j: int| 0 <= j < before.len() && before[j].id.0 == keys@[a];
                                    assert(out@[j] == before[j]);
                                }
                            }
                        }
                    },
                }
            }
            i = i + 1;
        }
        proof {
            assert forall|k: u64| #[trigger] self@.entities.contains_key(k) && still_standing(self@, k) implies exists|j: int|
                0 <= j < out@.len() && *out@[j] == self@.entities[k] by {
                assert(keys@.to_set().contains(k));
                let a = choose|a: int| 0 <= a < keys@.len() && keys@[a] == k;
                assert(still_standing(self@, keys@[a]));
                let j = choose|j: int| 0 <= j < out@.len() && out@[j].id.0 == keys@[a];
                assert(*out@[j] == self@.entities[out@[j].id.0]);
            }
        }
        out
    }

    /// The items in identity order.
    pub fn items(&self) -> (items: Vec<&Item>)
        ensures
            items@.len() == self@.items.dom().len(),
            forall|i: int| #![trigger items@[i]] 0 <= i < items@.len() ==> *items@[i] == self@.items[sorted_members(self@.items.dom())[i]],
    {
        let keys = map_keys(&self.items);
        proof {
            crate::collections::lemma_is_sorted_members(keys@, self@.items.dom());
        }
        let mut out: Vec<&Item> = Vec::new();
        let mut i: usize = 0;
        while i < keys.len()
            invariant
                i <= keys@.len(),
                keys@ == sorted_members(self@.items.dom()),
                keys@.to_set() == self@.items.dom(),
                out@.len() == i,
                forall|j: int| #![trigger out@[j]] 0 <= j < i ==> *out@[j] == self@.items[keys@[j]],
            decreases keys@.len() - i,
        {
            proof {
                assert(keys@.to_set().contains(keys@[i as int]));
            }
            match self.items.get(&keys[i]) {
                None => {
                    return out;
                },
                Some(e) => {
                    out.push(e);
                },
            }
            i = i + 1;
        }
        out
    }

    /// The containers in identity order.
    pub fn containers(&self) -> (containers: Vec<&Container>)
        ensures
            containers@.len() == self@.containers.dom().len(),
            forall|i: int| #![trigger containers@[i]] 0 <= i < containers@.len() ==> *containers@[i] == self@.containers[sorted_members(
                self@.containers.dom(),
            )[i]],
    {
        let keys = map_keys(&self.containers);
        proof {
            crate::collections::lemma_is_sorted_members(keys@, self@.containers.dom());
        }
        let mut out: Vec<&Container> = Vec::new();
        let mut i: usize = 0;
        while i < keys.len()
            invariant
                i <= keys@.len(),
                keys@ == sorted_members(self@.containers.dom()),
                keys@.to_set() == self@.containers.dom(),
                out@.len() == i,
                forall|j: int| #![trigger out@[j]] 0 <= j < i ==> *out@[j] == self@.containers[keys@[j]],
            decreases keys@.len() - i,
        {
            proof {
                assert(keys@.to_set().contains(keys@[i as int]));
            }
            match self.containers.get(&keys[i]) {
                None => {
                    return out;
                },
                Some(e) => {
                    out.push(e);
                },
            }
            i = i + 1;
        }
        out
    }

    /// The quests in identity order.
    pub fn quests(&self) -> (quests: Vec<&Quest>)
        ensures
            quests@.len() == self@.quests.dom().len(),
            forall|i: int| #![trigger quests@[i]] 0 <= i < quests@.len() ==> *quests@[i] == self@.quests[sorted_members(self@.quests.dom())[i]],
    {
        let keys = map_keys(&self.quests);
        proof {
            crate::collections::lemma_is_sorted_members(keys@, self@.quests.dom());
        }
        let mut out: Vec<&Quest> = Vec::new();
        let mut i: usize = 0;
        while i < keys.len()
            invariant
                i <= keys@.len(),
                keys@ == sorted_members(self@.quests.dom()),
                keys@.to_set() == self@.quests.dom(),
                out@.len() == i,
                forall|j: int| #![trigger out@[j]] 0 <= j < i ==> *out@[j] == self@.quests[keys@[j]],
            decreases keys@.len() - i,
        {
            proof {
                assert(keys@.to_set().contains(keys@[i as int]));
            }
            match self.quests.get(&keys[i]) {
                None => {
                    return out;
                },
                Some(e) => {
                    out.push(e);
                },
            }
            i = i + 1;
        }
        out
    }

    /// Every transition, each one once.
    pub fn transitions(&self) -> (transitions: Vec<&Transition>)
        ensures
            transitions@.len() == self@.transitions.dom().len(),
            forall|i: int| 0 <= i < transitions@.len() ==> self@.transitions.values().contains(*transitions@[i]),
    {
        let mut out: Vec<&Transition> = Vec::new();
        for t in it: self.transitions.values()
            invariant
                it.seq() == vstd::std_specs::btree::spec_values_iter(&self.transitions).remaining(),
                out@ == it.seq().take(it.index() as int),
        {
            out.push(t);
            proof {
                assert(out@ =~= it.seq().take(it.index() + 1));
            }
        }
        proof {
            let rem = vstd::std_specs::btree::spec_values_iter(&self.transitions).remaining();
            assert(out@ =~= rem);
            assert forall|i: int| 0 <= i < out@.len() implies self@.transitions.values().contains(*out@[i]) by {
                assert(rem.unref().to_set().contains(rem.unref()[i]));
            }
        }
        out
    }

    /// A deterministic demo town: a crossroads market beside a river, five
    /// buildings, two farm fields and eight townsfolk, with the campaign's
    /// world rules.
    pub fn demo(campaign_seed: u64) -> (sim: Self)
        ensures
            sim.wf(),
            sim@.campaign_seed == campaign_seed,
            sim@.tick == 0,
            !sim@.paused,
            sim@.player == EntityId(1),
            sim@.entities == demo_population(MapId(1)),
            sim@.maps.dom() == set![1u32],
            sim@.maps[1].id == MapId(1),
            forall|x: int, y: int|
                -48 <= x <= 48 && -36 <= y <= 36 ==> #[trigger] sim@.maps[1].cell_at(
                    GridPos { x: x as i32, y: y as i32, z: 0 },
                ) is Some,
            forall|p: GridPos|
                #[trigger] sim@.maps[1].cell_at(p) is Some ==> p.z == 0 && -48 <= p.x <= 48 && -36 <= p.y <= 36,
            sim@.maps[1].cell_at(demo_home(1)) == Some(terrain_cell(TerrainKind::Road)),
            sim@.landmarks.len() == 7,
            forall|i: int| 0 <= i < 7 ==> (#[trigger] sim@.landmarks[i]).position.map == MapId(1),
            crate::content::is_generated_rules(sim@.rules, campaign_seed),
            sim@.items.dom().len() == 0,
            sim@.combatants.dom().len() == 0,
            sim@.progression == CharacterProgression::initial_spec(),
            sim@.visited_maps == set![1u32],
            sim@.items == Map::<u64, Item>::empty(),
            sim@.legal_owners == Map::<u64, EntityId>::empty(),
            sim@.stolen == Set::<u64>::empty(),
            sim@.inventories == Map::<u64, Inventory>::empty(),
            sim@.containers == Map::<u64, Container>::empty(),
            sim@.combatants == Map::<u64, Combatant>::empty(),
            sim@.quests == Map::<u64, Quest>::empty(),
            sim@.healers == Set::<u64>::empty(),
            sim@.next_split_item_id == 0xe000_0000_0000_0000u64,
            sim@.next_loose_item_entity == 0xd000_0000_0000_0000u64,
            split_id_available(sim@),
            loose_entity_available(sim@),
            forall|i: int|
                0 <= i < 7 ==> (#[trigger] sim@.landmarks[i]).name@ == demo_landmark_name(i) && sim@.landmarks[i].kind
                    == demo_landmark_kind(i) && sim@.landmarks[i].position == (WorldPosition {
                    map: MapId(1),
                    grid: demo_landmark_cell(i),
                }),
            forall|x: int, y: int|
                -48 <= x <= 48 && -36 <= y <= 36 ==> #[trigger] demo_terrain_fits(
                    campaign_seed,
                    x,
                    y,
                    sim@.maps[1].cell_at(GridPos { x: x as i32, y: y as i32, z: 0 }),
                ),
    {
        let map_id = MapId(1);
        let mut map = WorldMap::new(map_id);
        let mut terrain_rng = crate::random::RandomStream::new(campaign_seed, crate::random::StreamId::terrain());
        proof {
            vstd::arithmetic::div_mod::lemma_small_mod(
                crate::random::mix64_spec(campaign_seed ^ crate::random::TERRAIN_STREAM) as nat,
                0x1_0000_0000_0000_0000nat,
            );
            assert(terrain_rng.state() == demo_stream_after(campaign_seed, 0));
        }
        let mut y: i32 = -36;
        while y <= 36
            invariant
                -36 <= y <= 37,
                map.id == map_id,
                terrain_rng.state() == demo_stream_after(campaign_seed, demo_rows_before(y as int) * 94),
                forall|p: GridPos|
                    #[trigger] map.cell_at(p) is Some ==> p.z == 0 && -48 <= p.x <= 48 && -36 <= p.y < y,
                forall|px: int, py: int|
                    -48 <= px <= 48 && -36 <= py < y ==> {
                        let c = #[trigger] map.cell_at(GridPos { x: px as i32, y: py as i32, z: 0 });
                        c is Some && demo_base_terrain(campaign_seed, px, py, c.unwrap().terrain) && c.unwrap() == terrain_cell(
                            c.unwrap().terrain,
                        )
                    },
            decreases 37 - y,
        {
            let mut x: i32 = -48;
            while x <= 48
                invariant
                    -36 <= y <= 36,
                    -48 <= x <= 49,
                    map.id == map_id,
                    terrain_rng.state() == demo_stream_after(
                        campaign_seed,
                        demo_rows_before(y as int) * 94 + if -1 <= y <= 1 {
                            0
                        } else {
                            demo_columns_before(x as int)
                        },
                    ),
                    forall|p: GridPos|
                        #[trigger] map.cell_at(p) is Some ==> p.z == 0 && -48 <= p.x <= 48 && -36 <= p.y <= y
                            && (p.y < y || p.x < x),
                    forall|px: int, py: int|
                        -48 <= px <= 48 && -36 <= py <= y && (py < y || px < x) ==> {
                            let c = #[trigger] map.cell_at(GridPos { x: px as i32, y: py as i32, z: 0 });
                            c is Some && demo_base_terrain(campaign_seed, px, py, c.unwrap().terrain) && c.unwrap() == terrain_cell(
                                c.unwrap().terrain,
                            )
                        },
                decreases 49 - x,
            {
                let ghost drawn = demo_rows_before(y as int) * 94 + demo_columns_before(x as int);
                proof {
                    if !((-1 <= x && x <= 1) || (-1 <= y && y <= 1)) {
                        lemma_demo_stream_step(campaign_seed, drawn);
                    }
                }
                let mut terrain = if (-1 <= x && x <= 1) || (-1 <= y && y <= 1) {
                    TerrainKind::Road
                } else if terrain_rng.one_in(41) {
                    TerrainKind::Dirt
                } else {
                    TerrainKind::Grass
                };
                if 14 <= x && x <= 15 {
                    terrain = if -1 <= y && y <= 1 {
                        TerrainKind::Bridge
                    } else {
                        TerrainKind::Water
                    };
                }
                let here = GridPos::new(x, y, 0);
                let cell = TerrainCell::new(terrain);
                map.set_cell(here, cell);
                proof {
                    assert(cell == terrain_cell(terrain));
                }
                x = x + 1;
            }
            y = y + 1;
        }
        let ghost base = map;
        paint_rect(&mut map, -3, -3, 3, 3, TerrainCell::new(TerrainKind::StoneFloor));
        let ghost m1 = map;
        paint_rect(&mut map, -31, -16, -23, -7, TerrainCell::new(TerrainKind::Farmland));
        let ghost m2 = map;
        paint_rect(&mut map, -31, 8, -23, 17, TerrainCell::new(TerrainKind::Farmland));
        let ghost m3 = map;
        paint_building(&mut map, -16, 3, -11, 8, GridPos::new(-13, 3, 0));
        let ghost m4 = map;
        paint_building(&mut map, -9, -12, -3, -6, GridPos::new(-6, -6, 0));
        let ghost m5 = map;
        paint_building(&mut map, 3, -12, 9, -6, GridPos::new(6, -6, 0));
        let ghost m6 = map;
        paint_building(&mut map, -9, 6, -3, 12, GridPos::new(-6, 6, 0));
        let ghost m7 = map;
        paint_building(&mut map, 3, 6, 9, 12, GridPos::new(6, 6, 0));
        let ghost m8 = map;
        paint_rect(&mut map, 17, -3, 21, 3, TerrainCell::new(TerrainKind::StoneFloor));
        proof {
            assert forall|x: int, y: int|
                -48 <= x <= 48 && -36 <= y <= 36 implies #[trigger] demo_terrain_fits(
                campaign_seed,
                x,
                y,
                map.cell_at(GridPos { x: x as i32, y: y as i32, z: 0 }),
            ) by {
                let p = GridPos { x: x as i32, y: y as i32, z: 0 };
                assert(base.cell_at(p) is Some);
                assert(m1.cell_at(p) == if in_rect(p, -3, -3, 3, 3) { Some(terrain_cell(TerrainKind::StoneFloor)) } else { base.cell_at(p) });
                assert(m2.cell_at(p) == if in_rect(p, -31, -16, -23, -7) { Some(terrain_cell(TerrainKind::Farmland)) } else { m1.cell_at(p) });
                assert(m3.cell_at(p) == if in_rect(p, -31, 8, -23, 17) { Some(terrain_cell(TerrainKind::Farmland)) } else { m2.cell_at(p) });
                assert(m4.cell_at(p) == m4.cell_at(p));
                assert(m5.cell_at(p) == m5.cell_at(p));
                assert(m6.cell_at(p) == m6.cell_at(p));
                assert(m7.cell_at(p) == m7.cell_at(p));
                assert(m8.cell_at(p) == m8.cell_at(p));
                assert(map.cell_at(p) == map.cell_at(p));
            }

            let px: int = -20;
            let py: int = 0;
            let home = GridPos { x: px as i32, y: py as i32, z: 0 };
            assert(base.cell_at(home) is Some);
            assert(demo_base_terrain(campaign_seed, px, py, base.cell_at(home).unwrap().terrain));
            assert(home == demo_home(1));
            assert(map.cell_at(demo_home(1)) == base.cell_at(demo_home(1)));
            assert forall|x: int, y: int|
                -48 <= x <= 48 && -36 <= y <= 36 implies #[trigger] map.cell_at(GridPos { x: x as i32, y: y as i32, z: 0 }) is Some by {
                assert(base.cell_at(GridPos { x: x as i32, y: y as i32, z: 0 }) is Some);
            }
            assert forall|p: GridPos|
                #[trigger] map.cell_at(p) is Some implies p.z == 0 && -48 <= p.x <= 48 && -36 <= p.y <= 36 by {
                if !(p.z == 0 && -48 <= p.x <= 48 && -36 <= p.y <= 36) {
                    assert(base.cell_at(p) is None);
                    assert(m1.cell_at(p) is None);
                    assert(m2.cell_at(p) is None);
                    assert(m3.cell_at(p) is None);
                    assert(m4.cell_at(p) is None);
                    assert(m5.cell_at(p) is None);
                    assert(m6.cell_at(p) is None);
                    assert(m7.cell_at(p) is None);
                    assert(m8.cell_at(p) is None);
                }
            }
        }
        let mut entities: BTreeMap<u64, Entity> = BTreeMap::new();
        let mut k: u64 = 1;
        while k <= 9
            invariant
                1 <= k <= 10,
                entities@ == demo_population(map_id).restrict(Set::new(|j: u64| 1 <= j < k)),
            decreases 10 - k,
        {
            let (gx, gy): (i32, i32) = if k == 1 {
                (-20, 0)
            } else if k == 2 {
                (-13, 3)
            } else if k == 3 {
                (-6, -6)
            } else if k == 4 {
                (6, -6)
            } else if k == 5 {
                (-6, 6)
            } else if k == 6 {
                (6, 6)
            } else if k == 7 {
                (19, 1)
            } else if k == 8 {
                (-1, 2)
            } else {
                (2, -1)
            };
            let kind = if k == 1 {
                EntityKind::Player
            } else {
                EntityKind::Character
            };
            let facing = if k == 1 {
                Direction::East
            } else {
                Direction::South
            };
            entities.insert(
                k,
                Entity { id: EntityId(k), kind, position: WorldPosition { map: map_id, grid: GridPos { x: gx, y: gy, z: 0 } }, facing },
            );
            proof {
                assert(entities@ =~= demo_population(map_id).restrict(Set::new(|j: u64| 1 <= j < k + 1)));
            }
            k = k + 1;
        }
        assert(entities@ =~= demo_population(map_id));
        let mut landmarks: Vec<Landmark> = Vec::new();
        landmarks.push(demo_landmark("Trading House", LandmarkKind::Shop, map_id, -13, 3));
        landmarks.push(demo_landmark("Common Granary", LandmarkKind::Granary, map_id, -6, -6));
        landmarks.push(demo_landmark("Civic Council", LandmarkKind::CouncilHall, map_id, 6, -6));
        landmarks.push(demo_landmark("Hearth Guild", LandmarkKind::GuildHall, map_id, -6, 6));
        landmarks.push(demo_landmark("The Wayfarer Inn", LandmarkKind::Inn, map_id, 6, 6));
        landmarks.push(demo_landmark("Market Square", LandmarkKind::TownSquare, map_id, 0, 0));
        landmarks.push(demo_landmark("Free River Dock", LandmarkKind::RiverDock, map_id, 19, 1));
        proof {
            reveal_strlit("Trading House");
        }
        let mut maps: BTreeMap<u32, WorldMap> = BTreeMap::new();
        maps.insert(1, map);
        let mut visited_maps: BTreeSet<u32> = BTreeSet::new();
        visited_maps.insert(1);
        let sim = Simulation {
            campaign_seed,
            tick: 0,
            paused: false,
            maps,
            entities,
            landmarks,
            items: BTreeMap::new(),
            legal_owners: BTreeMap::new(),
            stolen_items: BTreeSet::new(),
            inventories: BTreeMap::new(),
            containers: BTreeMap::new(),
            combatants: BTreeMap::new(),
            transitions: BTreeMap::new(),
            quests: BTreeMap::new(),
            healers: BTreeSet::new(),
            progression: CharacterProgression::initial(),
            rules: WorldRules::generate(campaign_seed),
            known_formulas: BTreeSet::new(),
            read_items: BTreeSet::new(),
            player_needs: PlayerNeeds { hunger: 20, thirst: 15 },
            next_loose_item_entity: 0xd000_0000_0000_0000,
            next_split_item_id: 0xe000_0000_0000_0000,
            visited_maps,
            player: EntityId(1),
        };
        proof {
            assert(sim@.maps.dom() =~= set![1u32]);
            assert(sim@.visited_maps =~= set![1u32]);
            assert(sim@.entities.contains_key(1));
            assert(!sim@.items.contains_key(sim@.next_split_item_id));
            assert(!sim@.entities.contains_key(sim@.next_loose_item_entity));
            assert(sim@.items =~= Map::<u64, Item>::empty());
            assert(sim@.legal_owners =~= Map::<u64, EntityId>::empty());
            assert(sim@.stolen =~= Set::<u64>::empty());
            assert(sim@.inventories =~= Map::<u64, Inventory>::empty());
            assert(sim@.containers =~= Map::<u64, Container>::empty());
            assert(sim@.combatants =~= Map::<u64, Combatant>::empty());
            assert(sim@.quests =~= Map::<u64, Quest>::empty());
            assert(sim@.healers =~= Set::<u64>::empty());
        }
        sim
    }
}



/// What a melee attack settles: a refusal when the fighters are not both
/// standing on one layer, or not side by side; otherwise the blow lands.
pub open spec fn melee_settled(s: SimState, attacker: EntityId, target: EntityId, b: SimState, outcome: CommandOutcome) -> bool {
    &&& !combat_ready(s, attacker.0, target.0) ==> is_failure(outcome, ActionFailure::InvalidTarget) && b == s
    &&& combat_ready(s, attacker.0, target.0) && beyond_reach(s, attacker.0, target.0) ==> is_failure(
        outcome,
        ActionFailure::OutOfRange,
    ) && b == s
    &&& combat_ready(s, attacker.0, target.0) && !beyond_reach(s, attacker.0, target.0) ==> blow_landed(
        s,
        s,
        b,
        outcome,
        attacker,
        target,
        with_bonus(s, attacker, melee_weapon_damage(s, attacker.0)),
        CombatMethod::Melee,
        Seq::empty(),
    )
}

/// What a ranged attack settles: the refusal the plan names, or one piece of
/// ammunition spent and the blow landed.
pub open spec fn ranged_settled(s: SimState, attacker: EntityId, target: EntityId, b: SimState, outcome: CommandOutcome) -> bool {
    &&& ranged_plan(s, attacker, target) is Err ==> is_failure(outcome, ranged_plan(s, attacker, target)->Err_0)
        && b == s
    &&& ranged_plan(s, attacker, target) is Ok ==> {
        let (damage, ammunition) = ranged_plan(s, attacker, target)->Ok_0;
        blow_landed(
            s,
            ammunition_spent(s, ammunition),
            b,
            outcome,
            attacker,
            target,
            with_bonus(s, attacker, damage),
            CombatMethod::Ranged,
            seq![
                SimulationEvent::ItemConsumed {
                    owner: attacker,
                    item: ammunition,
                    remaining: (s.items[ammunition.0].quantity - 1) as u16,
                },
            ],
        )
    }
}

/// The reagent a formula takes for `material`: the least usable one the
/// player carries.
pub open spec fn chosen_reagent(s: SimState, material: MaterialKind) -> u64 {
    choose|j: u64| is_reagent_for(s, material, j) && forall|k: u64| is_reagent_for(s, material, k) ==> j <= k
}

/// The items after the first `n` reagents of a formula are used up, one unit
/// each, in order.
pub open spec fn reagents_spent(s: SimState, materials: Seq<MaterialKind>, n: int) -> Map<u64, Item>
    decreases n,
{
    if n <= 0 {
        s.items
    } else {
        let items = reagents_spent(s, materials, n - 1);
        let it = chosen_reagent(s, materials[n - 1]);
        if !items.contains_key(it) {
            items
        } else if items[it].quantity > 0 {
            items.insert(it, one_unit_consumed(items[it]))
        } else {
            items
        }
    }
}

/// What a kindling spell settles once it struck `victim`: the damage notices
/// follow the cast, a player who defeats the victim earns its experience and
/// takes its loot, and every active quest advances by the events so far and
/// that loot. `progression` is the player's before the spell's practice counts.
#[verifier::opaque]
pub open spec fn kindle_landed(
    s: SimState,
    spent: SimState,
    victim: EntityId,
    potency: u8,
    cast_len: int,
        inventories: Map<u64, Inventory>,
        quests: Map<u64, Quest>,
        progression: CharacterProgression,
        events: Seq<SimulationEvent>,
    ) -> bool {
        let raw = kindle_strength(s, potency);
        let notices = damage_notices(spent, s.player, victim, raw, CombatMethod::Magic);
        let before = events.subrange(0, cast_len + notices.len());
        let damaged = after_damage(spent, victim.0, raw);
        let kill_reward = if blow_defeats(spent, victim, raw) {
            defeat_reward(damaged, victim)
        } else {
            0
        };
        &&& progression == after_experience(damaged, kill_reward).progression
        &&& events.len() >= cast_len + notices.len()
    &&& events.subrange(cast_len, cast_len + notices.len()) == notices
    &&& quests.dom() == s.quests.dom()
    &&& exists|looted: Set<u64>|
        loot_taken(damaged, inventories, s.player, victim, before, looted) && forall|k: u64|
            #[trigger] s.quests.contains_key(k) ==> quest_advanced_with(s.quests[k], quests[k], before, looted, s.player)
}

/// What casting a formula settles: the refusal that applies, or the spell
/// cast after its reagents, a tick spent, and its effect on health.
pub open spec fn cast_settled(s: SimState, formula: FormulaId, target: Option<EntityId>, b: SimState, outcome: CommandOutcome) -> bool {
    &&& cast_refusal(s, formula, target) is Some ==> is_failure(outcome, cast_refusal(s, formula, target).unwrap())
        && b == s
    &&& cast_refusal(s, formula, target) is None ==> {
        let rule = s.rules.formulas@[first_formula_index(s.rules.formulas@, formula).unwrap()];
        let player = s.player;
        &&& outcome.advanced_time
        &&& outcome.changed_world
        &&& outcome.events@.len() > rule.reagents@.len()
        &&& outcome.events@[rule.reagents@.len() as int] == (SimulationEvent::SpellCast {
            caster: player,
            formula,
            effect: rule.effect,
        })
        &&& b.tick == s.tick.saturating_add(1)
        &&& b.entities == s.entities
        &&& b.items == reagents_spent(s, rule.reagents@, rule.reagents@.len() as int)
        &&& rule.effect == MagicEffect::Heal && s.combatants.contains_key(player.0) ==> b.combatants[player.0].health
            == healed_health(s.combatants[player.0].health, rule.potency as int, s.combatants[player.0].max_health)
                &&& rule.effect == MagicEffect::Kindle && target.unwrap() != player ==> b.combatants[target.unwrap().0]
                    == after_damage(s, target.unwrap().0, kindle_strength(s, rule.potency)).combatants[target.unwrap().0]
                &&& b.maps == s.maps
                &&& b.legal_owners == s.legal_owners
                &&& b.stolen == s.stolen
                &&& b.containers == s.containers
                &&& b.progression.magical_practice == s.progression.magical_practice.saturating_add(1)
                &&& rule.effect == MagicEffect::Heal ==> b.quests == s.quests && b.inventories == s.inventories && b.progression
                    == (CharacterProgression { magical_practice: b.progression.magical_practice, ..s.progression })
                &&& rule.effect == MagicEffect::Kindle ==> kindle_landed(
                    s,
                    SimState { items: b.items, ..s },
                    target.unwrap(),
                    rule.potency,
                    rule.reagents@.len() + 1 as int,
                    b.inventories,
                    b.quests,
                    CharacterProgression { magical_practice: s.progression.magical_practice, ..b.progression },
                    outcome.events@,
                )
            }
        }

/// What a step settles: nothing at the edge of the coordinates or against
/// closed ground; a melee attack, after turning to face it, on an entity that
/// stands in the way; otherwise the walk.
pub open spec fn move_settled(s: SimState, direction: Direction, b: SimState, outcome: CommandOutcome) -> bool {
    let here = player_position(s);
    match step_from(here.grid, direction) {
        None => is_idle(outcome) && b == s,
        Some(destination) => match first_blocker(s, here.map, destination) {
            Some(k) => melee_settled(player_placed(s, here, direction), s.player, EntityId(k), b, outcome),
            None => if !cell_open(s, WorldPosition { map: here.map, grid: destination }) {
                is_idle(outcome) && b == s
            } else {
                (b, outcome_of(outcome)) == walk_result(s, direction, destination)
            },
        },
    }
}

/// What turning in a quest settles: a refusal unless it is ready, else the
/// quest closed, its reward granted, and one completion event first.
pub open spec fn turn_in_settled(s: SimState, quest_id: QuestId, b: SimState, outcome: CommandOutcome) -> bool {
    &&& !turn_in_ready(s, quest_id) ==> is_failure(outcome, ActionFailure::QuestNotReady) && b == s
    &&& turn_in_ready(s, quest_id) ==> {
        let closed = quest_closed(s, quest_id);
        let reward = s.quests[quest_id.0].reward_experience;
        let giver = s.quests[quest_id.0].giver.0;
        &&& !outcome.advanced_time
        &&& outcome.changed_world
        &&& outcome.events@.len() >= 1
        &&& outcome.events@[0] == (SimulationEvent::QuestCompleted { quest: quest_id })
        &&& b.quests == closed.quests
        &&& b.progression == after_experience(closed, reward).progression
        &&& b.combatants == after_experience(closed, reward).combatants
        &&& b == (SimState { progression: b.progression, combatants: b.combatants, inventories: b.inventories, ..closed })
        &&& forall|r: u64|
            #![trigger carries(b, giver, r)]
            recovered_items(s.quests[quest_id.0].objectives@).contains(ItemId(r)) && carries(s, s.player.0, r)
                && s.items.contains_key(r) && !s.containers.contains_key(giver) && giver != s.player.0 ==> carries(
                b,
                giver,
                r,
            ) && !carries(b, s.player.0, r)
        &&& forall|h: u64, r: u64|
            !recovered_items(s.quests[quest_id.0].objectives@).contains(ItemId(r)) ==> #[trigger] carries(b, h, r)
                == carries(s, h, r)
    }
}

/// What the player's own action settles, before the world's turn: movement,
/// fighting, casting, quests and exchanges by their relations (a command
/// without a quantity moves the whole stack); the other commands by their exact
/// result.
pub open spec fn resolution_settled(s: SimState, command: GameCommand, b: SimState, outcome: CommandOutcome) -> bool {
    match command {
        GameCommand::Move(direction) => move_settled(s, direction, b, outcome),
        GameCommand::Attack(target) => melee_settled(s, s.player, target, b, outcome),
        GameCommand::FireAt(target) => ranged_settled(s, s.player, target, b, outcome),
        GameCommand::Cast { formula, target } => cast_settled(s, formula, target, b, outcome),
        GameCommand::TurnInQuest(quest) => turn_in_settled(s, quest, b, outcome),
        GameCommand::Give { item, to } => give_settled(s, item, to, stack_quantity_of(s, item.0), b, outcome),
        GameCommand::GiveQuantity { item, to, quantity } => give_settled(s, item, to, quantity, b, outcome),
        GameCommand::Take { item, from } => take_settled(s, item, from, stack_quantity_of(s, item.0), b, outcome),
        GameCommand::TakeQuantity { item, from, quantity } => take_settled(s, item, from, quantity, b, outcome),
        GameCommand::Place { item, container } => place_settled(
            s,
            item,
            container,
            stack_quantity_of(s, item.0),
            b,
            outcome,
        ),
        GameCommand::PlaceQuantity { item, container, quantity } => place_settled(s, item, container, quantity, b, outcome),
        GameCommand::Drop(item) => drop_settled(s, item, stack_quantity_of(s, item.0), b, outcome),
        GameCommand::DropQuantity { item, quantity } => drop_settled(s, item, quantity, b, outcome),
        _ => immediate_result(s, command) is Some ==> immediate_result(s, command) == Some((b, outcome_of(outcome))),
    }
}

/// After the player's action: the world's turn when it took time, else nothing more.
pub open spec fn continued(mid: SimState, done: Outcome, b: SimState, o: Outcome) -> bool {
    if done.advanced_time {
        turn_passed(mid, done, b, o)
    } else {
        b == mid && o == done
    }
}


/// What handing an item to someone settles: a refusal when they are not beside
/// the player or the exchange is refused, else the exchange with its title.
pub open spec fn give_settled(s: SimState, item: ItemId, to: EntityId, quantity: u16, b: SimState, outcome: CommandOutcome) -> bool {
    &&& (!adjacent(s, s.player.0, to.0) ==> is_failure(outcome, ActionFailure::OutOfRange)
                && b == s)
    &&& (adjacent(s, s.player.0, to.0) ==> match quantity_transfer_check(
                s,
                item,
                s.player,
                to,
                quantity,
            ) {
                Some(e) => is_failure(outcome, exchange_refusal(e)) && b == s,
                None => {
                    let survivor = moved_item(outcome.events@[0]).0;
                    &&& exchanged(s, b, outcome, item, s.player, to, quantity)
                    &&& holds_title(s, item.0) ==> owner_of(b, survivor) == Some(to)
                        && !b.stolen.contains(survivor)
                    &&& !holds_title(s, item.0) && owner_of(s, item.0) == Some(to) ==> owner_of(
                        b,
                        survivor,
                    ) == Some(to) && !b.stolen.contains(survivor)
                    &&& !holds_title(s, item.0) && owner_of(s, item.0) != Some(to) ==> owner_of(
                        b,
                        survivor,
                    ) == owner_of(s, item.0) && b.stolen.contains(survivor)
                        == s.stolen.contains(item.0)
                },
            })
}

/// What taking an item settles: a refusal when the holder is not beside the
/// player, is a locked container, or the exchange is refused; else the
/// exchange, marking the item stolen unless it was the player's.
pub open spec fn take_settled(s: SimState, item: ItemId, from: EntityId, quantity: u16, b: SimState, outcome: CommandOutcome) -> bool {
    &&& (!adjacent(s, s.player.0, from.0) ==> is_failure(outcome, ActionFailure::OutOfRange)
                && b == s)
    &&& (adjacent(s, s.player.0, from.0) && s.containers.contains_key(from.0)
                && s.containers[from.0].locked ==> is_failure(outcome, ActionFailure::ContainerLocked)
                && b == s)
    &&& (adjacent(s, s.player.0, from.0) && !(s.containers.contains_key(from.0)
                && s.containers[from.0].locked) ==> match quantity_transfer_check(
                s,
                item,
                from,
                s.player,
                quantity,
            ) {
                Some(e) => is_failure(outcome, exchange_refusal(e)) && b == s,
                None => {
                    let survivor = moved_item(outcome.events@[0]).0;
                    &&& exchanged(s, b, outcome, item, from, s.player, quantity)
                    &&& owner_of(b, survivor) == owner_of(s, item.0)
                    &&& b.stolen.contains(survivor) == (s.stolen.contains(item.0) || owner_of(
                        s,
                        item.0,
                    ) != Some(s.player))
                    &&& b.entities == s.entities || b.entities
                        == s.entities.remove(from.0)
                },
            })
}

/// What putting an item into a container settles: the refusal that applies,
/// else the exchange into the container.
pub open spec fn place_settled(s: SimState, item: ItemId, container: EntityId, quantity: u16, b: SimState, outcome: CommandOutcome) -> bool {
    &&& (!adjacent(s, s.player.0, container.0) ==> is_failure(
                outcome,
                ActionFailure::OutOfRange,
            ) && b == s)
    &&& (adjacent(s, s.player.0, container.0) && !s.containers.contains_key(container.0)
                ==> is_failure(outcome, ActionFailure::NotAContainer) && b == s)
    &&& (adjacent(s, s.player.0, container.0) && s.containers.contains_key(container.0)
                && s.containers[container.0].locked ==> is_failure(outcome, ActionFailure::ContainerLocked)
                && b == s)
    &&& (adjacent(s, s.player.0, container.0) && s.containers.contains_key(container.0)
                && !s.containers[container.0].locked ==> match quantity_transfer_check(
                s,
                item,
                s.player,
                container,
                quantity,
            ) {
                Some(e) => is_failure(outcome, placing_refusal(e)) && b == s,
                None => {
                    let survivor = moved_item(outcome.events@[0]).0;
                    &&& exchanged(s, b, outcome, item, s.player, container, quantity)
                    &&& owner_of(b, survivor) == owner_of(s, item.0)
                    &&& b.stolen.contains(survivor) == s.stolen.contains(item.0)
                    &&& b.entities == s.entities
                },
            })
}

/// What dropping an item settles: a refusal unless the player carries at
/// least that many, else the item laid on the ground.
pub open spec fn drop_settled(s: SimState, item: ItemId, quantity: u16, b: SimState, outcome: CommandOutcome) -> bool {
    &&& (!carries(s, s.player.0, item.0) ==> is_failure(
                outcome,
                ActionFailure::ItemNotCarried,
            ) && b == s)
    &&& (carries(s, s.player.0, item.0) && (quantity == 0 || quantity > stack_quantity_of(
                s,
                item.0,
            )) ==> is_failure(outcome, ActionFailure::InvalidQuantity) && b == s)
    &&& (carries(s, s.player.0, item.0) && 0 < quantity <= stack_quantity_of(s, item.0)
                ==> dropped(s, b, outcome, item, quantity))
}

} // verus!
