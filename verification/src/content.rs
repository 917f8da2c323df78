//! Stable authored vocabulary and coherent per-campaign content rules.
//!
//! This module describes what may exist and generates the hidden truth for one
//! campaign: which magical formulas exist, what reagents they take and under
//! which condition they work.
use vstd::prelude::*;
use vstd::string::StringExecFns;

use crate::text::{decimal_digits, u64_to_decimal};

verus! {

/// Identity of a physical object recorded in campaign history.
#[derive(Clone, Copy, Debug, PartialEq, Eq, Structural, Hash, PartialOrd, Ord)]
pub struct ObjectId(pub u64);

/// Identity of a magical formula in one campaign's rules.
#[derive(Clone, Copy, Debug, PartialEq, Eq, Structural, Hash, PartialOrd, Ord)]
pub struct FormulaId(pub u64);

#[derive(Clone, Copy, Debug, PartialEq, Eq, Structural, Hash, PartialOrd, Ord)]
pub enum MaterialKind {
    Iron,
    Silver,
    Oak,
    CleanLinen,
    Ashroot,
    RiverPearl,
    Moonmoss,
    SilverSalt,
    Emberseed,
    Sulfur,
    CopperSalt,
}

#[derive(Clone, Copy, Debug, PartialEq, Eq, Structural)]
pub enum MaterialSource {
    Mineral,
    Timber,
    Crafted,
    Plant,
    River,
}

/// The player-facing name of a material.
pub open spec fn material_name(kind: MaterialKind) -> Seq<char> {
    match kind {
        MaterialKind::Iron => "iron"@,
        MaterialKind::Silver => "silver"@,
        MaterialKind::Oak => "oak"@,
        MaterialKind::CleanLinen => "clean linen"@,
        MaterialKind::Ashroot => "ashroot"@,
        MaterialKind::RiverPearl => "river pearl"@,
        MaterialKind::Moonmoss => "moonmoss"@,
        MaterialKind::SilverSalt => "silver salts"@,
        MaterialKind::Emberseed => "emberseed"@,
        MaterialKind::Sulfur => "sulfur"@,
        MaterialKind::CopperSalt => "copper salts"@,
    }
}

/// Where a material is gathered or made.
pub open spec fn material_source(kind: MaterialKind) -> MaterialSource {
    match kind {
        MaterialKind::Iron | MaterialKind::Silver | MaterialKind::Sulfur
        | MaterialKind::CopperSalt | MaterialKind::SilverSalt => MaterialSource::Mineral,
        MaterialKind::Oak => MaterialSource::Timber,
        MaterialKind::CleanLinen => MaterialSource::Crafted,
        MaterialKind::Ashroot | MaterialKind::Moonmoss | MaterialKind::Emberseed => MaterialSource::Plant,
        MaterialKind::RiverPearl => MaterialSource::River,
    }
}

impl MaterialKind {
    pub fn name(self) -> (name: &'static str)
        ensures
            name@ == material_name(self),
    {
        match self {
            MaterialKind::Iron => "iron",
            MaterialKind::Silver => "silver",
            MaterialKind::Oak => "oak",
            MaterialKind::CleanLinen => "clean linen",
            MaterialKind::Ashroot => "ashroot",
            MaterialKind::RiverPearl => "river pearl",
            MaterialKind::Moonmoss => "moonmoss",
            MaterialKind::SilverSalt => "silver salts",
            MaterialKind::Emberseed => "emberseed",
            MaterialKind::Sulfur => "sulfur",
            MaterialKind::CopperSalt => "copper salts",
        }
    }

    pub fn source(self) -> (source: MaterialSource)
        ensures
            source == material_source(self),
    {
        match self {
            MaterialKind::Iron | MaterialKind::Silver | MaterialKind::Sulfur
            | MaterialKind::CopperSalt | MaterialKind::SilverSalt => MaterialSource::Mineral,
            MaterialKind::Oak => MaterialSource::Timber,
            MaterialKind::CleanLinen => MaterialSource::Crafted,
            MaterialKind::Ashroot | MaterialKind::Moonmoss | MaterialKind::Emberseed => {
                MaterialSource::Plant
            },
            MaterialKind::RiverPearl => MaterialSource::River,
        }
    }
}

#[derive(Clone, Copy, Debug, PartialEq, Eq, Structural)]
pub enum ItemForm {
    Longsword,
    HuntingBow,
    Grimoire,
    RitualVessel,
    Reagent,
}

#[derive(Clone, Copy, Debug, PartialEq, Eq, Structural, Hash, PartialOrd, Ord)]
pub enum MagicPrinciple {
    Heat,
    Life,
    Memory,
    Light,
    Distance,
    Decay,
}

#[derive(Clone, Copy, Debug, PartialEq, Eq, Structural, Hash, PartialOrd, Ord)]
pub enum MagicEffect {
    Heal,
    Kindle,
}

pub open spec fn effect_name(effect: MagicEffect) -> Seq<char> {
    match effect {
        MagicEffect::Heal => "healing"@,
        MagicEffect::Kindle => "kindling flame"@,
    }
}

impl MagicEffect {
    pub fn name(self) -> (name: &'static str)
        ensures
            name@ == effect_name(self),
    {
        match self {
            MagicEffect::Heal => "healing",
            MagicEffect::Kindle => "kindling flame",
        }
    }
}

#[derive(Clone, Copy, Debug, PartialEq, Eq, Structural)]
pub enum FormulaCondition {
    CleanWater,
    DirectSunlight,
    NightSky,
    ExistingFlame,
}

pub open spec fn condition_name(condition: FormulaCondition) -> Seq<char> {
    match condition {
        FormulaCondition::CleanWater => "beside clean water"@,
        FormulaCondition::DirectSunlight => "under direct sunlight"@,
        FormulaCondition::NightSky => "beneath the night sky"@,
        FormulaCondition::ExistingFlame => "beside an existing flame"@,
    }
}

impl FormulaCondition {
    pub fn name(self) -> (name: &'static str)
        ensures
            name@ == condition_name(self),
    {
        match self {
            FormulaCondition::CleanWater => "beside clean water",
            FormulaCondition::DirectSunlight => "under direct sunlight",
            FormulaCondition::NightSky => "beneath the night sky",
            FormulaCondition::ExistingFlame => "beside an existing flame",
        }
    }
}

#[derive(Clone, Debug, PartialEq, Eq)]
pub struct FormulaRule {
    pub id: FormulaId,
    pub name: String,
    pub effect: MagicEffect,
    pub principles: Vec<MagicPrinciple>,
    pub reagents: Vec<MaterialKind>,
    pub condition: FormulaCondition,
    pub potency: u8,
}

/// No material occurs twice in the sequence.
pub open spec fn distinct_materials(reagents: Seq<MaterialKind>) -> bool {
    forall|i: int, j: int| 0 <= i < j < reagents.len() ==> reagents[i] != reagents[j]
}

/// A formula can be performed: it names at least one principle, at least one
/// reagent, never the same reagent twice, and has some potency.
pub open spec fn formula_is_coherent(rule: FormulaRule) -> bool {
    &&& rule.principles@.len() > 0
    &&& rule.reagents@.len() > 0
    &&& distinct_materials(rule.reagents@)
    &&& rule.potency > 0
}

impl FormulaRule {
    pub fn is_coherent(&self) -> (coherent: bool)
        ensures
            coherent == formula_is_coherent(*self),
    {
        if self.principles.len() == 0 || self.reagents.len() == 0 || self.potency == 0 {
            return false;
        }
        let n = self.reagents.len();
        let mut i: usize = 0;
        while i < n
            invariant
                n == self.reagents@.len(),
                i <= n,
                forall|a: int, b: int| 0 <= a < b < n && a < i ==> self.reagents@[a] != self.reagents@[b],
            decreases n - i,
        {
            let mut j: usize = i + 1;
            while j < n
                invariant
                    n == self.reagents@.len(),
                    i < n,
                    i + 1 <= j <= n,
                    forall|a: int, b: int| 0 <= a < b < n && a < i ==> self.reagents@[a] != self.reagents@[b],
                    forall|b: int| i < b < j ==> self.reagents@[i as int] != self.reagents@[b],
                decreases n - j,
            {
                if self.reagents[i] == self.reagents[j] {
                    return false;
                }
                j = j + 1;
            }
            i = i + 1;
        }
        true
    }
}

#[derive(Clone, Debug, PartialEq, Eq)]
pub struct CraftRule {
    pub form: ItemForm,
    pub materials: Vec<MaterialKind>,
    pub required_trade: &'static str,
}

#[derive(Clone, Debug, PartialEq, Eq)]
pub struct WorldRules {
    pub campaign_seed: u64,
    pub magical_tradition: String,
    pub formulas: Vec<FormulaRule>,
    pub crafts: Vec<CraftRule>,
}

/// The name of the magical tradition chosen by `index`.
pub open spec fn tradition_name(index: int) -> Seq<char> {
    if index == 0 {
        "The River Covenant"@
    } else if index == 1 {
        "The Ashen Measure"@
    } else if index == 2 {
        "The Lantern Discipline"@
    } else {
        "The Doctrine of Remembered Names"@
    }
}

/// Principles of the healing formula in variant `v`.
pub open spec fn healing_principles(v: int) -> Seq<MagicPrinciple> {
    if v == 0 {
        seq![MagicPrinciple::Life, MagicPrinciple::Memory]
    } else if v == 1 {
        seq![MagicPrinciple::Life, MagicPrinciple::Light]
    } else {
        seq![MagicPrinciple::Life, MagicPrinciple::Heat]
    }
}

pub open spec fn healing_reagents(v: int) -> Seq<MaterialKind> {
    if v == 0 {
        seq![MaterialKind::Ashroot, MaterialKind::RiverPearl]
    } else if v == 1 {
        seq![MaterialKind::Moonmoss, MaterialKind::SilverSalt]
    } else {
        seq![MaterialKind::Emberseed, MaterialKind::CleanLinen]
    }
}

pub open spec fn healing_condition(v: int) -> FormulaCondition {
    if v == 0 {
        FormulaCondition::CleanWater
    } else if v == 1 {
        FormulaCondition::NightSky
    } else {
        FormulaCondition::ExistingFlame
    }
}

pub open spec fn healing_name(v: int) -> Seq<char> {
    if v == 0 {
        "Rite of the Returning Current"@
    } else if v == 1 {
        "Vigil of the Pale Lantern"@
    } else {
        "Mercy of the Banked Hearth"@
    }
}

pub open spec fn flame_reagents(v: int) -> Seq<MaterialKind> {
    if v == 0 {
        seq![MaterialKind::Sulfur, MaterialKind::CopperSalt]
    } else if v == 1 {
        seq![MaterialKind::Emberseed, MaterialKind::Ashroot]
    } else {
        seq![MaterialKind::Moonmoss, MaterialKind::Sulfur]
    }
}

pub open spec fn flame_condition(v: int) -> FormulaCondition {
    if v == 0 {
        FormulaCondition::DirectSunlight
    } else if v == 1 {
        FormulaCondition::ExistingFlame
    } else {
        FormulaCondition::NightSky
    }
}

pub open spec fn flame_name(v: int) -> Seq<char> {
    if v == 0 {
        "Copper-Sun Invocation"@
    } else if v == 1 {
        "Canticle of the Second Ember"@
    } else {
        "Cold Star Kindling"@
    }
}

/// A 64-bit left rotation by 17 bits.
pub open spec fn rotate_left_17(x: u64) -> u64 {
    ((x << 17u64) | (x >> 47u64)) as u64
}

/// Index of the healing variant chosen for a campaign.
pub open spec fn healing_variant(seed: u64) -> int {
    (seed % 3) as int
}

/// Index of the kindling variant chosen for a campaign.
pub open spec fn flame_variant(seed: u64) -> int {
    (rotate_left_17(seed) % 3) as int
}

/// Whether `rule` is exactly the healing formula of variant `v`.
pub open spec fn is_healing_formula(rule: FormulaRule, v: int) -> bool {
    &&& rule.id == FormulaId(1)
    &&& rule.name@ == healing_name(v)
    &&& rule.effect == MagicEffect::Heal
    &&& rule.principles@ == healing_principles(v)
    &&& rule.reagents@ == healing_reagents(v)
    &&& rule.condition == healing_condition(v)
    &&& rule.potency == 5
}

/// Whether `rule` is exactly the kindling formula of variant `v`.
pub open spec fn is_flame_formula(rule: FormulaRule, v: int) -> bool {
    &&& rule.id == FormulaId(2)
    &&& rule.name@ == flame_name(v)
    &&& rule.effect == MagicEffect::Kindle
    &&& rule.principles@ == seq![MagicPrinciple::Heat, MagicPrinciple::Light]
    &&& rule.reagents@ == flame_reagents(v)
    &&& rule.condition == flame_condition(v)
    &&& rule.potency == 4
}

/// The rules a campaign seed determines.
pub open spec fn is_generated_rules(rules: WorldRules, seed: u64) -> bool {
    &&& rules.campaign_seed == seed
    &&& rules.magical_tradition@ == tradition_name((seed % 4) as int)
    &&& rules.formulas@.len() == 2
    &&& is_healing_formula(rules.formulas@[0], healing_variant(seed))
    &&& is_flame_formula(rules.formulas@[1], flame_variant(seed))
    &&& rules.crafts@.len() == 2
    &&& rules.crafts@[0].form == ItemForm::Longsword
    &&& rules.crafts@[0].materials@ == seq![MaterialKind::Iron, MaterialKind::Oak]
    &&& rules.crafts@[0].required_trade@ == "smith"@
    &&& rules.crafts@[1].form == ItemForm::Grimoire
    &&& rules.crafts@[1].materials@ == seq![MaterialKind::CleanLinen]
    &&& rules.crafts@[1].required_trade@ == "scribe"@
}

/// Index of the first formula with identity `id`, if any.
pub open spec fn first_formula_index(formulas: Seq<FormulaRule>, id: FormulaId) -> Option<int> {
    if exists|i: int| 0 <= i < formulas.len() && formulas[i].id == id {
        let i = choose|i: int|
            0 <= i < formulas.len() && formulas[i].id == id && forall|j: int|
                0 <= j < i ==> formulas[j].id != id;
        Some(i)
    } else {
        None
    }
}

/// The problem reported for the formula at `index`, in report order.
pub open spec fn formula_problems(formulas: Seq<FormulaRule>, index: int) -> Seq<Seq<char>> {
    let rule = formulas[index];
    let duplicate = exists|j: int| 0 <= j < index && formulas[j].id == rule.id;
    let digits = decimal_digits(rule.id.0 as nat);
    (if duplicate {
        seq!["duplicate formula "@ + digits]
    } else {
        Seq::empty()
    }) + (if !formula_is_coherent(rule) {
        seq!["incoherent formula "@ + digits]
    } else {
        Seq::empty()
    })
}

/// Every problem found in the first `count` formulas, in order.
pub open spec fn validation_problems(formulas: Seq<FormulaRule>, count: int) -> Seq<Seq<char>>
    decreases count,
{
    if count <= 0 {
        Seq::empty()
    } else {
        validation_problems(formulas, count - 1) + formula_problems(formulas, count - 1)
    }
}

fn rotate_left_17_exec(x: u64) -> (r: u64)
    ensures
        r == rotate_left_17(x),
{
    (x << 17u64) | (x >> 47u64)
}

fn make_formula(
    id: u64,
    name: &str,
    effect: MagicEffect,
    first_principle: MagicPrinciple,
    second_principle: MagicPrinciple,
    first_reagent: MaterialKind,
    second_reagent: MaterialKind,
    condition: FormulaCondition,
    potency: u8,
) -> (rule: FormulaRule)
    ensures
        rule.id == FormulaId(id),
        rule.name@ == name@,
        rule.effect == effect,
        rule.principles@ == seq![first_principle, second_principle],
        rule.reagents@ == seq![first_reagent, second_reagent],
        rule.condition == condition,
        rule.potency == potency,
{
    let mut principles = Vec::new();
    principles.push(first_principle);
    principles.push(second_principle);
    let mut reagents = Vec::new();
    reagents.push(first_reagent);
    reagents.push(second_reagent);
    FormulaRule {
        id: FormulaId(id),
        name: String::from_str(name),
        effect,
        principles,
        reagents,
        condition,
        potency,
    }
}

impl WorldRules {
    /// Generates the hidden rules of one campaign from its seed alone.
    pub fn generate(campaign_seed: u64) -> (rules: Self)
        ensures
            is_generated_rules(rules, campaign_seed),
    {
        let tradition = match campaign_seed % 4 {
            0 => "The River Covenant",
            1 => "The Ashen Measure",
            2 => "The Lantern Discipline",
            _ => "The Doctrine of Remembered Names",
        };
        let healing = match campaign_seed % 3 {
            0 => make_formula(
                1,
                "Rite of the Returning Current",
                MagicEffect::Heal,
                MagicPrinciple::Life,
                MagicPrinciple::Memory,
                MaterialKind::Ashroot,
                MaterialKind::RiverPearl,
                FormulaCondition::CleanWater,
                5,
            ),
            1 => make_formula(
                1,
                "Vigil of the Pale Lantern",
                MagicEffect::Heal,
                MagicPrinciple::Life,
                MagicPrinciple::Light,
                MaterialKind::Moonmoss,
                MaterialKind::SilverSalt,
                FormulaCondition::NightSky,
                5,
            ),
            _ => make_formula(
                1,
                "Mercy of the Banked Hearth",
                MagicEffect::Heal,
                MagicPrinciple::Life,
                MagicPrinciple::Heat,
                MaterialKind::Emberseed,
                MaterialKind::CleanLinen,
                FormulaCondition::ExistingFlame,
                5,
            ),
        };
        let flame = match rotate_left_17_exec(campaign_seed) % 3 {
            0 => make_formula(
                2,
                "Copper-Sun Invocation",
                MagicEffect::Kindle,
                MagicPrinciple::Heat,
                MagicPrinciple::Light,
                MaterialKind::Sulfur,
                MaterialKind::CopperSalt,
                FormulaCondition::DirectSunlight,
                4,
            ),
            1 => make_formula(
                2,
                "Canticle of the Second Ember",
                MagicEffect::Kindle,
                MagicPrinciple::Heat,
                MagicPrinciple::Light,
                MaterialKind::Emberseed,
                MaterialKind::Ashroot,
                FormulaCondition::ExistingFlame,
                4,
            ),
            _ => make_formula(
                2,
                "Cold Star Kindling",
                MagicEffect::Kindle,
                MagicPrinciple::Heat,
                MagicPrinciple::Light,
                MaterialKind::Moonmoss,
                MaterialKind::Sulfur,
                FormulaCondition::NightSky,
                4,
            ),
        };
        let mut formulas = Vec::new();
        formulas.push(healing);
        formulas.push(flame);
        let mut sword = Vec::new();
        sword.push(MaterialKind::Iron);
        sword.push(MaterialKind::Oak);
        let mut grimoire = Vec::new();
        grimoire.push(MaterialKind::CleanLinen);
        let mut crafts = Vec::new();
        crafts.push(CraftRule { form: ItemForm::Longsword, materials: sword, required_trade: "smith" });
        crafts.push(
            CraftRule { form: ItemForm::Grimoire, materials: grimoire, required_trade: "scribe" },
        );
        let rules = WorldRules {
            campaign_seed,
            magical_tradition: String::from_str(tradition),
            formulas,
            crafts,
        };
        assert(rules.formulas@[0] == healing);
        assert(rules.formulas@[1] == flame);
        assert(rules.crafts@[0].materials@ =~= seq![MaterialKind::Iron, MaterialKind::Oak]);
        assert(rules.crafts@[1].materials@ =~= seq![MaterialKind::CleanLinen]);
        assert(is_healing_formula(rules.formulas@[0], healing_variant(campaign_seed)));
        assert(is_flame_formula(rules.formulas@[1], flame_variant(campaign_seed)));
        assert(rules.magical_tradition@ == tradition_name((campaign_seed % 4) as int));
        rules
    }

    /// The first formula with the given identity.
    pub fn formula(&self, id: FormulaId) -> (rule: Option<&FormulaRule>)
        ensures
            match first_formula_index(self.formulas@, id) {
                Some(i) => rule == Some(&self.formulas@[i]),
                None => rule.is_none(),
            },
    {
        let n = self.formulas.len();
        let mut i: usize = 0;
        while i < n
            invariant
                n == self.formulas@.len(),
                i <= n,
                forall|j: int| 0 <= j < i ==> self.formulas@[j].id != id,
            decreases n - i,
        {
            if self.formulas[i].id == id {
                let ghost k = first_formula_index(self.formulas@, id);
                proof {
                    let c = k.unwrap();
                    assert(0 <= c < n && self.formulas@[c].id == id);
                    if c < i {
                    } else if c > i {
                    }
                }
                return Some(&self.formulas[i]);
            }
            i = i + 1;
        }
        None
    }

    /// Lists, in formula order, each repeated identity and each incoherent formula.
    pub fn validate(&self) -> (problems: Vec<String>)
        ensures
            problems@.len() == validation_problems(self.formulas@, self.formulas@.len() as int).len(),
            forall|k: int|
                0 <= k < problems@.len() ==> #[trigger] problems@[k]@ == validation_problems(
                    self.formulas@,
                    self.formulas@.len() as int,
                )[k],
    {
        let mut problems: Vec<String> = Vec::new();
        let n = self.formulas.len();
        let mut i: usize = 0;
        while i < n
            invariant
                n == self.formulas@.len(),
                i <= n,
                problems@.len() == validation_problems(self.formulas@, i as int).len(),
                forall|k: int|
                    0 <= k < problems@.len() ==> #[trigger] problems@[k]@ == validation_problems(
                        self.formulas@,
                        i as int,
                    )[k],
            decreases n - i,
        {
            let id = self.formulas[i].id;
            let mut duplicate = false;
            let mut j: usize = 0;
            while j < i
                invariant
                    n == self.formulas@.len(),
                    i < n,
                    j <= i,
                    id == self.formulas@[i as int].id,
                    duplicate == exists|k: int| 0 <= k < j && self.formulas@[k].id == id,
                decreases i - j,
            {
                if self.formulas[j].id == id {
                    duplicate = true;
                }
                j = j + 1;
            }
            let ghost before = problems@;
            let ghost expected = formula_problems(self.formulas@, i as int);
            if duplicate {
                let mut message = String::from_str("duplicate formula ");
                let digits = u64_to_decimal(id.0);
                message.append(digits.as_str());
                problems.push(message);
            }
            if !self.formulas[i].is_coherent() {
                let mut message = String::from_str("incoherent formula ");
                let digits = u64_to_decimal(id.0);
                message.append(digits.as_str());
                problems.push(message);
            }
            proof {
                reveal_strlit("duplicate formula ");
                reveal_strlit("incoherent formula ");
                assert(validation_problems(self.formulas@, i + 1) == validation_problems(
                    self.formulas@,
                    i as int,
                ) + expected);
                assert forall|k: int| 0 <= k < problems@.len() implies #[trigger] problems@[k]@
                    == validation_problems(self.formulas@, i + 1)[k] by {
                    if k < before.len() {
                        assert(problems@[k] == before[k]);
                    }
                }
            }
            i = i + 1;
        }
        problems
    }
}

} // verus!
