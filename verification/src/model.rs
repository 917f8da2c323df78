//! The vocabulary of the simulation: entities, items, combat, quests, commands
//! and the events commands produce.
use vstd::prelude::*;
use std::collections::BTreeSet;

use crate::content::{FormulaCondition, FormulaId, MagicEffect, MaterialKind, ObjectId};
use crate::geometry::{Direction, MapId, WorldPosition};

verus! {

#[derive(Clone, Copy, Debug, PartialEq, Eq, Structural, PartialOrd, Ord)]
pub struct EntityId(pub u64);

#[derive(Clone, Copy, Debug, PartialEq, Eq, Structural, PartialOrd, Ord)]
pub struct ItemId(pub u64);

#[derive(Clone, Copy, Debug, PartialEq, Eq, Structural, PartialOrd, Ord)]
pub struct QuestId(pub u64);

#[derive(Clone, Copy, Debug, PartialEq, Eq, Structural)]
pub enum EntityKind {
    Player,
    Character,
    Creature,
    Item,
}

#[derive(Clone, Copy, Debug, PartialEq, Eq, Structural)]
pub struct Entity {
    pub id: EntityId,
    pub kind: EntityKind,
    pub position: WorldPosition,
    pub facing: Direction,
}

#[derive(Clone, Copy, Debug, PartialEq, Eq, Structural)]
pub enum AmmunitionKind {
    Arrow,
}

#[derive(Clone, Copy, Debug, PartialEq, Eq, Structural, PartialOrd, Ord)]
pub enum BookSubject {
    LocalHistory,
    Law,
    Trade,
    NaturalLore,
}

#[derive(Clone, Copy, Debug, PartialEq, Eq, Structural)]
pub enum ItemKind {
    MeleeWeapon { damage: i16 },
    RangedWeapon { damage: i16, range: u8, ammunition: AmmunitionKind },
    Ammunition { kind: AmmunitionKind },
    Consumable { healing: i16 },
    Food { nourishment: u8 },
    Drink { hydration: u8 },
    Book { subject: BookSubject },
    Key { lock_code: u64 },
    Tool,
    Reagent { material: MaterialKind },
    InscribedArtifact { object: ObjectId, formula: FormulaId },
    Artifact,
}

/// Kinds of item that can be split into and merged from partial stacks.
pub open spec fn is_stackable(kind: ItemKind) -> bool {
    match kind {
        ItemKind::Ammunition { .. } | ItemKind::Consumable { .. } | ItemKind::Food { .. }
        | ItemKind::Drink { .. } | ItemKind::Reagent { .. } => true,
        _ => false,
    }
}

pub fn item_kind_is_stackable(kind: ItemKind) -> (stackable: bool)
    ensures
        stackable == is_stackable(kind),
{
    match kind {
        ItemKind::Ammunition { .. } | ItemKind::Consumable { .. } | ItemKind::Food { .. }
        | ItemKind::Drink { .. } | ItemKind::Reagent { .. } => true,
        _ => false,
    }
}

#[derive(Clone, Debug, PartialEq, Eq)]
pub struct Item {
    pub id: ItemId,
    pub name: String,
    pub kind: ItemKind,
    pub quantity: u16,
    pub weight_grams: u32,
    pub quality: u8,
}

/// Items an entity physically holds. Item identities are stored by their raw
/// numbers so the set is ordered by them.
#[derive(Clone, Debug, PartialEq, Eq)]
pub struct Inventory {
    pub owner: EntityId,
    pub items: BTreeSet<u64>,
    pub equipped_melee: Option<ItemId>,
    pub equipped_ranged: Option<ItemId>,
}

impl Inventory {
    pub fn new(owner: EntityId) -> (inventory: Self)
        ensures
            inventory.owner == owner,
            inventory.items@ == Set::<u64>::empty(),
            inventory.equipped_melee.is_none(),
            inventory.equipped_ranged.is_none(),
    {
        Inventory { owner, items: BTreeSet::new(), equipped_melee: None, equipped_ranged: None }
    }
}

#[derive(Clone, Debug, PartialEq, Eq)]
pub struct Container {
    pub entity: EntityId,
    pub name: String,
    pub owner: EntityId,
    pub capacity_grams: u32,
    pub lock_code: Option<u64>,
    pub locked: bool,
}

#[derive(Clone, Copy, Debug, Default, PartialEq, Eq, Structural)]
pub struct PlayerNeeds {
    pub hunger: u8,
    pub thirst: u8,
}

#[derive(Clone, Copy, Debug, PartialEq, Eq, Structural)]
pub struct Combatant {
    pub entity: EntityId,
    pub health: i16,
    pub max_health: i16,
    pub armor: i16,
    pub hostile_to_player: bool,
    pub experience_reward: u32,
}

impl Combatant {
    pub fn is_alive(self) -> (alive: bool)
        ensures
            alive == (self.health > 0),
    {
        self.health > 0
    }
}

#[derive(Clone, Copy, Debug, PartialEq, Eq, Structural, PartialOrd, Ord)]
pub enum LandmarkKind {
    Shop,
    Granary,
    CouncilHall,
    GuildHall,
    Inn,
    Temple,
    Infirmary,
    Smithy,
    Mill,
    Farm,
    Residence,
    Memorial,
    Ruin,
    TownSquare,
    RiverDock,
    Gate,
    DungeonEntrance,
}

#[derive(Clone, Debug, PartialEq, Eq)]
pub struct Landmark {
    pub name: String,
    pub kind: LandmarkKind,
    pub position: WorldPosition,
}

#[derive(Clone, Copy, Debug, PartialEq, Eq, Structural)]
pub enum TransitionKind {
    Descend,
    Ascend,
}

#[derive(Clone, Debug, PartialEq, Eq)]
pub struct Transition {
    pub from: WorldPosition,
    pub to: WorldPosition,
    pub kind: TransitionKind,
    pub name: String,
}

#[derive(Clone, Copy, Debug, PartialEq, Eq, Structural)]
pub enum QuestStatus {
    Active,
    ReadyToTurnIn,
    Completed,
}

#[derive(Clone, Copy, Debug, PartialEq, Eq, Structural)]
pub enum QuestObjectiveKind {
    Defeat(EntityId),
    Recover(ItemId),
}

#[derive(Clone, Debug, PartialEq, Eq)]
pub struct QuestObjective {
    pub description: String,
    pub kind: QuestObjectiveKind,
    pub completed: bool,
}

#[derive(Clone, Debug, PartialEq, Eq)]
pub struct Quest {
    pub id: QuestId,
    pub title: String,
    pub description: String,
    pub giver: EntityId,
    pub status: QuestStatus,
    pub objectives: Vec<QuestObjective>,
    pub reward_experience: u32,
}

#[derive(Clone, Copy, Debug, PartialEq, Eq, Structural)]
pub struct CharacterProgression {
    pub level: u16,
    pub experience: u32,
    pub attack_bonus: i16,
    pub discoveries: u16,
    pub arcane_lore: u16,
    pub martial_practice: u16,
    pub ranged_practice: u16,
    pub magical_practice: u16,
    pub social_practice: u16,
    pub exploration: u16,
    pub fulfilled_commitments: u16,
    pub world_changes: u16,
}

impl CharacterProgression {
    /// A new character: level 1 with nothing yet learned or practised.
    pub fn initial() -> (p: Self)
        ensures
            p == (CharacterProgression {
                level: 1,
                experience: 0,
                attack_bonus: 0,
                discoveries: 0,
                arcane_lore: 0,
                martial_practice: 0,
                ranged_practice: 0,
                magical_practice: 0,
                social_practice: 0,
                exploration: 0,
                fulfilled_commitments: 0,
                world_changes: 0,
            }),
    {
        CharacterProgression {
            level: 1,
            experience: 0,
            attack_bonus: 0,
            discoveries: 0,
            arcane_lore: 0,
            martial_practice: 0,
            ranged_practice: 0,
            magical_practice: 0,
            social_practice: 0,
            exploration: 0,
            fulfilled_commitments: 0,
            world_changes: 0,
        }
    }

    /// Total experience needed for the next level: one hundred per current level.
    pub fn experience_for_next_level(self) -> (needed: u32)
        ensures
            needed == self.level * 100,
    {
        self.level as u32 * 100
    }
}

impl Default for CharacterProgression {
    fn default() -> (p: Self)
        ensures
            p == CharacterProgression::initial_spec(),
    {
        CharacterProgression::initial()
    }
}

impl CharacterProgression {
    pub open spec fn initial_spec() -> CharacterProgression {
        CharacterProgression {
            level: 1,
            experience: 0,
            attack_bonus: 0,
            discoveries: 0,
            arcane_lore: 0,
            martial_practice: 0,
            ranged_practice: 0,
            magical_practice: 0,
            social_practice: 0,
            exploration: 0,
            fulfilled_commitments: 0,
            world_changes: 0,
        }
    }
}

#[derive(Clone, Copy, Debug, PartialEq, Eq, Structural)]
pub enum GameCommand {
    Move(Direction),
    Attack(EntityId),
    FireAt(EntityId),
    Equip(ItemId),
    UseItem(ItemId),
    Study(ItemId),
    Give { item: ItemId, to: EntityId },
    GiveQuantity { item: ItemId, to: EntityId, quantity: u16 },
    Take { item: ItemId, from: EntityId },
    TakeQuantity { item: ItemId, from: EntityId, quantity: u16 },
    OpenContainer(EntityId),
    UnlockContainer { container: EntityId, key: ItemId },
    Place { item: ItemId, container: EntityId },
    PlaceQuantity { item: ItemId, container: EntityId, quantity: u16 },
    Drop(ItemId),
    DropQuantity { item: ItemId, quantity: u16 },
    Read(ItemId),
    Eat(ItemId),
    Drink(ItemId),
    Experiment { first: ItemId, second: ItemId },
    Cast { formula: FormulaId, target: Option<EntityId> },
    Traverse,
    TurnInQuest(QuestId),
    Wait,
    Pause,
}

#[derive(Clone, Copy, Debug, PartialEq, Eq, Structural)]
pub enum CombatMethod {
    Melee,
    Ranged,
    Magic,
    Retaliation,
}

#[derive(Clone, Copy, Debug, PartialEq, Eq, Structural)]
pub enum ActionFailure {
    InvalidTarget,
    OutOfRange,
    LineBlocked,
    NoWeapon,
    NoAmmunition,
    ItemNotCarried,
    ItemCannotBeUsed,
    AlreadyAtFullHealth,
    UnknownFormula,
    MissingReagent(MaterialKind),
    MagicalConditionUnmet(FormulaCondition),
    NoTransition,
    QuestNotReady,
    ExperimentFailed,
    ContainerLocked,
    WrongKey,
    ContainerFull,
    NotAContainer,
    AlreadySatisfied,
    InvalidQuantity,
}

#[derive(Clone, Copy, Debug, PartialEq, Eq, Structural)]
pub enum SimulationEvent {
    Damaged {
        attacker: EntityId,
        target: EntityId,
        amount: i16,
        remaining_health: i16,
        method: CombatMethod,
    },
    Defeated { entity: EntityId, by: EntityId },
    ItemEquipped { owner: EntityId, item: ItemId },
    ItemTransferred { item: ItemId, from: EntityId, to: EntityId },
    ItemQuantityTransferred {
        source: ItemId,
        item: ItemId,
        quantity: u16,
        from: EntityId,
        to: EntityId,
    },
    ItemConsumed { owner: EntityId, item: ItemId, remaining: u16 },
    ContainerOpened { container: EntityId },
    ContainerUnlocked { container: EntityId, key: ItemId },
    ItemDropped { item: ItemId, holder: EntityId, position: WorldPosition },
    ItemRead { item: ItemId, subject: BookSubject, newly_learned: bool },
    NeedsChanged { hunger: u8, thirst: u8 },
    FormulaLearned { formula: FormulaId, source: ItemId },
    SpellCast { caster: EntityId, formula: FormulaId, effect: MagicEffect },
    Healed { entity: EntityId, amount: i16, health: i16 },
    RevivedAtHealer {
        entity: EntityId,
        healer: EntityId,
        health: i16,
        destination: WorldPosition,
    },
    Traversed { kind: TransitionKind, destination: WorldPosition },
    ExperienceGained { amount: u32, total: u32 },
    LevelGained { level: u16, max_health: i16, attack_bonus: i16 },
    QuestAdvanced { quest: QuestId, objective: usize },
    QuestReadyToTurnIn { quest: QuestId },
    QuestCompleted { quest: QuestId },
    ActionFailed(ActionFailure),
}

#[derive(Clone, Debug, Default, PartialEq, Eq)]
pub struct CommandOutcome {
    pub advanced_time: bool,
    pub changed_world: bool,
    pub events: Vec<SimulationEvent>,
}

#[derive(Clone, Copy, Debug, PartialEq, Eq, Structural)]
pub enum SimulationBuildError {
    MissingPlayer(EntityId),
    PlayerEntityRequired(EntityId),
    EntityOnDifferentMap(EntityId),
    LandmarkOnDifferentMap,
}

#[derive(Clone, Copy, Debug, PartialEq, Eq, Structural)]
pub enum GameplayBuildError {
    MissingEntity(EntityId),
    DuplicateEntity(EntityId),
    EntityOnMissingMap(EntityId),
    EntityOnBlockedCell(EntityId),
    DuplicateMap(MapId),
    LandmarkOnMissingMap,
    DuplicateItem(ItemId),
    MissingItem(ItemId),
    InvalidQuantity { item: ItemId, quantity: u16 },
    ItemNotCarried { item: ItemId, owner: EntityId },
    InvalidContainer(EntityId),
    ContainerFull(EntityId),
    InvalidCombatant(EntityId),
    InvalidTransition(WorldPosition),
    DuplicateTransition(WorldPosition),
    DuplicateQuest(QuestId),
}

} // verus!
