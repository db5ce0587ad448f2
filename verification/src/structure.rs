//! The stat block of a beast, and its models.
//!
//! Each type has a `DeepView` into a type of its own with `Seq<char>` in place
//! of `String`, `Seq` in place of `Vec`; contracts speak of those.
use vstd::prelude::*;

use crate::chars::{
    ascii_lower, is_whitespace, is_ws, lower_char, lower_range_is, range_is, to_chars,
};

verus! {

#[derive(Clone, Copy, PartialEq, Eq, Hash, PartialOrd, Ord, Debug)]
pub enum Role {
    Minion,
    Rival,
    Boss,
}

#[derive(Clone, PartialEq, Eq, Hash, PartialOrd, Ord, Debug)]
pub enum Size {
    Small,
    Medium,
    Large,
    Huge,
    Gargantuan,
}

#[derive(Clone, Copy, PartialEq, Eq, Hash, Debug)]
pub struct Ranged {
    pub value: u64,
    pub min: u64,
    pub max: u64,
}

#[derive(Clone, PartialEq, Eq, Hash, Debug)]
pub struct Attributes {
    pub strength: String,
    pub speed: String,
    pub intellect: String,
    pub willpower: String,
    pub awareness: String,
    pub presence: String,
}

#[derive(Clone, PartialEq, Eq, Hash, Debug)]
pub struct Defenses {
    pub physical: String,
    pub cognitive: String,
    pub spiritual: String,
}

#[derive(Clone, PartialEq, Eq, Hash, Debug)]
pub struct DescValue<T> {
    pub value: T,
    pub desc: String,
}

#[derive(Clone, PartialEq, Eq, Hash, Debug)]
pub struct Movement {
    pub value: u64,
    pub extra: Vec<DescValue<u64>>,
    pub desc: Option<String>,
}

#[derive(Clone, PartialEq, Eq, Hash, Debug)]
pub struct Skill {
    pub name: String,
    pub value: String,
    pub desc: Option<String>,
}

#[derive(Clone, PartialEq, Eq, Hash, Debug)]
pub struct Feature {
    pub name: String,
    pub desc: String,
}

#[derive(Clone, Copy, PartialEq, Eq, Hash, Debug)]
pub enum ActionKind {
    One,
    Two,
    Three,
    Free,
    Reaction,
}

#[derive(Clone, PartialEq, Eq, Hash, Debug)]
pub struct Action {
    pub kind: ActionKind,
    pub name: String,
    pub desc: String,
}

#[derive(Clone, PartialEq, Eq, Hash, Debug)]
pub struct Beast {
    pub name: String,
    pub tier: u64,
    pub role: Role,
    pub size: Option<Size>,
    pub kind: String,
    pub attributes: Attributes,
    pub defenses: Defenses,
    pub health: Ranged,
    pub focus: u64,
    pub investiture: u64,
    pub deflect: Option<DescValue<u64>>,
    pub movement: Movement,
    pub senses: DescValue<u64>,
    pub immunities: Vec<String>,
    pub physical_skills: Vec<Skill>,
    pub cognitive_skills: Vec<Skill>,
    pub spiritual_skills: Vec<Skill>,
    pub surge_skills: Vec<Skill>,
    pub languages: Option<Vec<String>>,
    pub features: Vec<Feature>,
    pub actions: Vec<Action>,
    pub opportunity: Option<String>,
    pub complication: Option<String>,
}

// ---------------------------------------------------------------------------
// Models
pub struct AttributesModel {
    pub strength: Seq<char>,
    pub speed: Seq<char>,
    pub intellect: Seq<char>,
    pub willpower: Seq<char>,
    pub awareness: Seq<char>,
    pub presence: Seq<char>,
}

pub struct DefensesModel {
    pub physical: Seq<char>,
    pub cognitive: Seq<char>,
    pub spiritual: Seq<char>,
}

pub struct DescValueModel<V> {
    pub value: V,
    pub desc: Seq<char>,
}

pub struct MovementModel {
    pub value: u64,
    pub extra: Seq<DescValueModel<u64>>,
    pub desc: Option<Seq<char>>,
}

pub struct SkillModel {
    pub name: Seq<char>,
    pub value: Seq<char>,
    pub desc: Option<Seq<char>>,
}

pub struct FeatureModel {
    pub name: Seq<char>,
    pub desc: Seq<char>,
}

pub struct ActionModel {
    pub kind: ActionKind,
    pub name: Seq<char>,
    pub desc: Seq<char>,
}

pub struct BeastModel {
    pub name: Seq<char>,
    pub tier: u64,
    pub role: Role,
    pub size: Option<Size>,
    pub kind: Seq<char>,
    pub attributes: AttributesModel,
    pub defenses: DefensesModel,
    pub health: Ranged,
    pub focus: u64,
    pub investiture: u64,
    pub deflect: Option<DescValueModel<u64>>,
    pub movement: MovementModel,
    pub senses: DescValueModel<u64>,
    pub immunities: Seq<Seq<char>>,
    pub physical_skills: Seq<SkillModel>,
    pub cognitive_skills: Seq<SkillModel>,
    pub spiritual_skills: Seq<SkillModel>,
    pub surge_skills: Seq<SkillModel>,
    pub languages: Option<Seq<Seq<char>>>,
    pub features: Seq<FeatureModel>,
    pub actions: Seq<ActionModel>,
    pub opportunity: Option<Seq<char>>,
    pub complication: Option<Seq<char>>,
}

impl DeepView for Role {
    type V = Role;

    open spec fn deep_view(&self) -> Role {
        *self
    }
}

impl DeepView for Size {
    type V = Size;

    open spec fn deep_view(&self) -> Size {
        *self
    }
}

impl DeepView for ActionKind {
    type V = ActionKind;

    open spec fn deep_view(&self) -> ActionKind {
        *self
    }
}

impl DeepView for Ranged {
    type V = Ranged;

    open spec fn deep_view(&self) -> Ranged {
        *self
    }
}

impl DeepView for Attributes {
    type V = AttributesModel;

    open spec fn deep_view(&self) -> AttributesModel {
        AttributesModel {
            strength: self.strength@,
            speed: self.speed@,
            intellect: self.intellect@,
            willpower: self.willpower@,
            awareness: self.awareness@,
            presence: self.presence@,
        }
    }
}

impl DeepView for Defenses {
    type V = DefensesModel;

    open spec fn deep_view(&self) -> DefensesModel {
        DefensesModel {
            physical: self.physical@,
            cognitive: self.cognitive@,
            spiritual: self.spiritual@,
        }
    }
}

impl<T: DeepView> DeepView for DescValue<T> {
    type V = DescValueModel<T::V>;

    open spec fn deep_view(&self) -> DescValueModel<T::V> {
        DescValueModel { value: self.value.deep_view(), desc: self.desc@ }
    }
}

impl DeepView for Movement {
    type V = MovementModel;

    open spec fn deep_view(&self) -> MovementModel {
        MovementModel {
            value: self.value,
            extra: self.extra.deep_view(),
            desc: self.desc.deep_view(),
        }
    }
}

impl DeepView for Skill {
    type V = SkillModel;

    open spec fn deep_view(&self) -> SkillModel {
        SkillModel { name: self.name@, value: self.value@, desc: self.desc.deep_view() }
    }
}

impl DeepView for Feature {
    type V = FeatureModel;

    open spec fn deep_view(&self) -> FeatureModel {
        FeatureModel { name: self.name@, desc: self.desc@ }
    }
}

impl DeepView for Action {
    type V = ActionModel;

    open spec fn deep_view(&self) -> ActionModel {
        ActionModel { kind: self.kind, name: self.name@, desc: self.desc@ }
    }
}

impl DeepView for Beast {
    type V = BeastModel;

    open spec fn deep_view(&self) -> BeastModel {
        BeastModel {
            name: self.name@,
            tier: self.tier,
            role: self.role,
            size: self.size,
            kind: self.kind@,
            attributes: self.attributes.deep_view(),
            defenses: self.defenses.deep_view(),
            health: self.health,
            focus: self.focus,
            investiture: self.investiture,
            deflect: self.deflect.deep_view(),
            movement: self.movement.deep_view(),
            senses: self.senses.deep_view(),
            immunities: self.immunities.deep_view(),
            physical_skills: self.physical_skills.deep_view(),
            cognitive_skills: self.cognitive_skills.deep_view(),
            spiritual_skills: self.spiritual_skills.deep_view(),
            surge_skills: self.surge_skills.deep_view(),
            languages: self.languages.deep_view(),
            features: self.features.deep_view(),
            actions: self.actions.deep_view(),
            opportunity: self.opportunity.deep_view(),
            complication: self.complication.deep_view(),
        }
    }
}

// ---------------------------------------------------------------------------
// Names of enum values
/// The error of the `from_str` functions: the text names no value of the
/// type named here.
#[derive(Clone, PartialEq, Eq, Debug)]
pub struct FromStrError {
    pub target: &'static str,
}

/// `s` with every ASCII upper-case letter lowered.
pub open spec fn ascii_lowercase(s: Seq<char>) -> Seq<char> {
    Seq::new(s.len(), |i: int| ascii_lower(s[i]))
}

/// The role named by `s`, in any case.
///
/// The names hold no `k`, so lowering ASCII letters and Unicode lower-casing
/// agree on which texts name a role.
pub open spec fn spec_role(s: Seq<char>) -> Option<Role> {
    let l = ascii_lowercase(s);
    if l == "minion"@ {
        Some(Role::Minion)
    } else if l == "rival"@ {
        Some(Role::Rival)
    } else if l == "boss"@ {
        Some(Role::Boss)
    } else {
        None
    }
}

/// The size named by `s`, in any case (see `spec_role`).
pub open spec fn spec_size(s: Seq<char>) -> Option<Size> {
    let l = ascii_lowercase(s);
    if l == "small"@ {
        Some(Size::Small)
    } else if l == "medium"@ {
        Some(Size::Medium)
    } else if l == "large"@ {
        Some(Size::Large)
    } else if l == "huge"@ {
        Some(Size::Huge)
    } else if l == "gargantuan"@ {
        Some(Size::Gargantuan)
    } else {
        None
    }
}

/// `s` without whitespace, with ASCII letters lowered.
pub open spec fn action_key(s: Seq<char>) -> Seq<char>
    decreases s.len(),
{
    if s.len() == 0 {
        seq![]
    } else if is_ws(s.last()) {
        action_key(s.drop_last())
    } else {
        action_key(s.drop_last()).push(ascii_lower(s.last()))
    }
}

/// The action kind named by `s`: its name in any case or its symbol, with
/// whitespace anywhere.
pub open spec fn spec_action_kind(s: Seq<char>) -> Option<ActionKind> {
    let k = action_key(s);
    if k == "one"@ || k == "\u{25b6}"@ {
        Some(ActionKind::One)
    } else if k == "two"@ || k == "\u{25b6}\u{25b6}"@ {
        Some(ActionKind::Two)
    } else if k == "three"@ || k == "\u{25b6}\u{25b6}\u{25b6}"@ {
        Some(ActionKind::Three)
    } else if k == "free"@ || k == "\u{25b7}"@ {
        Some(ActionKind::Free)
    } else if k == "reaction"@ || k == "\u{21a9}"@ {
        Some(ActionKind::Reaction)
    } else {
        None
    }
}

/// The symbol of an action kind.
pub open spec fn spec_symbol(k: ActionKind) -> Seq<char> {
    match k {
        ActionKind::One => "\u{25b6}"@,
        ActionKind::Two => "\u{25b6}\u{25b6}"@,
        ActionKind::Three => "\u{25b6}\u{25b6}\u{25b6}"@,
        ActionKind::Free => "\u{25b7}"@,
        ActionKind::Reaction => "\u{21a9}"@,
    }
}

pub fn role_in(v: &Vec<char>, i: usize, j: usize) -> (r: Option<Role>)
    requires
        i <= j <= v@.len(),
    ensures
        r == spec_role(v@.subrange(i as int, j as int)),
{
    let ghost l = ascii_lowercase(v@.subrange(i as int, j as int));
    assert(l =~= Seq::new((j - i) as nat, |k: int| ascii_lower(v@[i + k])));
    if lower_range_is(v, i, j, "minion") {
        Some(Role::Minion)
    } else if lower_range_is(v, i, j, "rival") {
        Some(Role::Rival)
    } else if lower_range_is(v, i, j, "boss") {
        Some(Role::Boss)
    } else {
        None
    }
}

pub fn size_in(v: &Vec<char>, i: usize, j: usize) -> (r: Option<Size>)
    requires
        i <= j <= v@.len(),
    ensures
        r == spec_size(v@.subrange(i as int, j as int)),
{
    let ghost l = ascii_lowercase(v@.subrange(i as int, j as int));
    assert(l =~= Seq::new((j - i) as nat, |k: int| ascii_lower(v@[i + k])));
    if lower_range_is(v, i, j, "small") {
        Some(Size::Small)
    } else if lower_range_is(v, i, j, "medium") {
        Some(Size::Medium)
    } else if lower_range_is(v, i, j, "large") {
        Some(Size::Large)
    } else if lower_range_is(v, i, j, "huge") {
        Some(Size::Huge)
    } else if lower_range_is(v, i, j, "gargantuan") {
        Some(Size::Gargantuan)
    } else {
        None
    }
}

pub fn action_kind_in(v: &Vec<char>, i: usize, j: usize) -> (r: Option<ActionKind>)
    requires
        i <= j <= v@.len(),
    ensures
        r == spec_action_kind(v@.subrange(i as int, j as int)),
{
    let ghost s = v@.subrange(i as int, j as int);
    let mut key: Vec<char> = Vec::new();
    let mut k = i;
    while k < j
        invariant
            i <= k <= j <= v@.len(),
            s == v@.subrange(i as int, j as int),
            key@ == action_key(s.subrange(0, k - i)),
        decreases j - k,
    {
        assert(s.subrange(0, k + 1 - i).drop_last() =~= s.subrange(0, k - i));
        let c = v[k];
        if !is_whitespace(c) {
            key.push(lower_char(c));
        }
        k = k + 1;
    }
    assert(s.subrange(0, j - i) =~= s);
    let n = key.len();
    if range_is(&key, 0, n, "one") || range_is(&key, 0, n, "\u{25b6}") {
        proof { assert(key@.subrange(0, n as int) =~= key@); }
        Some(ActionKind::One)
    } else if range_is(&key, 0, n, "two") || range_is(&key, 0, n, "\u{25b6}\u{25b6}") {
        proof { assert(key@.subrange(0, n as int) =~= key@); }
        Some(ActionKind::Two)
    } else if range_is(&key, 0, n, "three") || range_is(
        &key,
        0,
        n,
        "\u{25b6}\u{25b6}\u{25b6}",
    ) {
        proof { assert(key@.subrange(0, n as int) =~= key@); }
        Some(ActionKind::Three)
    } else if range_is(&key, 0, n, "free") || range_is(&key, 0, n, "\u{25b7}") {
        proof { assert(key@.subrange(0, n as int) =~= key@); }
        Some(ActionKind::Free)
    } else if range_is(&key, 0, n, "reaction") || range_is(&key, 0, n, "\u{21a9}") {
        proof { assert(key@.subrange(0, n as int) =~= key@); }
        Some(ActionKind::Reaction)
    } else {
        proof { assert(key@.subrange(0, n as int) =~= key@); }
        None
    }
}

/// The name of a role as printed (`Minion`, `Rival`, `Boss`).
pub open spec fn spec_role_name(r: Role) -> Seq<char> {
    match r {
        Role::Minion => "Minion"@,
        Role::Rival => "Rival"@,
        Role::Boss => "Boss"@,
    }
}

/// The name of a size as printed.
pub open spec fn spec_size_name(z: Size) -> Seq<char> {
    match z {
        Size::Small => "Small"@,
        Size::Medium => "Medium"@,
        Size::Large => "Large"@,
        Size::Huge => "Huge"@,
        Size::Gargantuan => "Gargantuan"@,
    }
}

impl Role {
    /// The role's name, as printed.
    pub fn name(&self) -> (r: &'static str)
        ensures
            r@ == spec_role_name(*self),
    {
        match self {
            Role::Minion => "Minion",
            Role::Rival => "Rival",
            Role::Boss => "Boss",
        }
    }
}

impl Size {
    /// The size's name, as printed.
    pub fn name(&self) -> (r: &'static str)
        ensures
            r@ == spec_size_name(*self),
    {
        match self {
            Size::Small => "Small",
            Size::Medium => "Medium",
            Size::Large => "Large",
            Size::Huge => "Huge",
            Size::Gargantuan => "Gargantuan",
        }
    }
}

// ---------------------------------------------------------------------------
// Laws

/// A role's printed name parses back to the role.
pub proof fn law_role_name_round_trip(r: Role)
    ensures
        spec_role(spec_role_name(r)) == Some(r),
{
    reveal_strlit("Minion");
    reveal_strlit("Rival");
    reveal_strlit("Boss");
    reveal_strlit("minion");
    reveal_strlit("rival");
    reveal_strlit("boss");
    assert(ascii_lowercase("Minion"@) =~= "minion"@);
    assert(ascii_lowercase("Rival"@) =~= "rival"@);
    assert(ascii_lowercase("Boss"@) =~= "boss"@);
    assert("minion"@ != "rival"@);
    assert("minion"@ != "boss"@);
    assert("rival"@ != "boss"@);
}

/// A size's printed name parses back to the size.
pub proof fn law_size_name_round_trip(z: Size)
    ensures
        spec_size(spec_size_name(z)) == Some(z),
{
    reveal_strlit("Small");
    reveal_strlit("Medium");
    reveal_strlit("Large");
    reveal_strlit("Huge");
    reveal_strlit("Gargantuan");
    reveal_strlit("small");
    reveal_strlit("medium");
    reveal_strlit("large");
    reveal_strlit("huge");
    reveal_strlit("gargantuan");
    assert(ascii_lowercase("Small"@) =~= "small"@);
    assert(ascii_lowercase("Medium"@) =~= "medium"@);
    assert(ascii_lowercase("Large"@) =~= "large"@);
    assert(ascii_lowercase("Huge"@) =~= "huge"@);
    assert(ascii_lowercase("Gargantuan"@) =~= "gargantuan"@);
    assert("small"@ != "medium"@);
    assert("small"@[0] != "large"@[0]);
    assert("small"@ != "huge"@);
    assert("medium"@ != "large"@);
    assert("medium"@ != "huge"@);
    assert("large"@ != "huge"@);
}

/// The symbol of an action kind parses back to the kind.
pub proof fn law_action_symbol_round_trip(k: ActionKind)
    ensures
        spec_action_kind(spec_symbol(k)) == Some(k),
{
    reveal_strlit("\u{25b6}");
    reveal_strlit("\u{25b6}\u{25b6}");
    reveal_strlit("\u{25b6}\u{25b6}\u{25b6}");
    reveal_strlit("\u{25b7}");
    reveal_strlit("\u{21a9}");
    reveal_strlit("one");
    reveal_strlit("two");
    reveal_strlit("three");
    reveal_strlit("free");
    reveal_strlit("reaction");
    reveal_with_fuel(action_key, 4);
    let t = spec_symbol(k);
    assert(action_key(t) =~= t);
}


impl Role {
    /// Parses a role by its name, in any case.
    pub fn from_str(s: &str) -> (r: Result<Role, FromStrError>)
        ensures
            match spec_role(s@) {
                Some(role) => r == Ok::<Role, FromStrError>(role),
                None => r matches Err(e) && e.target@ == "Role"@,
            },
    {
        let v = to_chars(s);
        proof { assert(v@.subrange(0, v@.len() as int) =~= v@); }
        match role_in(&v, 0, v.len()) {
            Some(role) => Ok(role),
            None => Err(FromStrError { target: "Role" }),
        }
    }
}

impl Size {
    /// Parses a size by its name, in any case.
    pub fn from_str(s: &str) -> (r: Result<Size, FromStrError>)
        ensures
            match spec_size(s@) {
                Some(size) => r == Ok::<Size, FromStrError>(size),
                None => r matches Err(e) && e.target@ == "Size"@,
            },
    {
        let v = to_chars(s);
        proof { assert(v@.subrange(0, v@.len() as int) =~= v@); }
        match size_in(&v, 0, v.len()) {
            Some(size) => Ok(size),
            None => Err(FromStrError { target: "Size" }),
        }
    }
}

impl ActionKind {
    /// Parses an action kind by its name (`one`, `two`, `three`, `free`,
    /// `reaction`, in any case) or its symbol; whitespace is ignored.
    pub fn from_str(s: &str) -> (r: Result<ActionKind, FromStrError>)
        ensures
            match spec_action_kind(s@) {
                Some(kind) => r == Ok::<ActionKind, FromStrError>(kind),
                None => r matches Err(e) && e.target@ == "ActionKind"@,
            },
    {
        let v = to_chars(s);
        proof { assert(v@.subrange(0, v@.len() as int) =~= v@); }
        match action_kind_in(&v, 0, v.len()) {
            Some(kind) => Ok(kind),
            None => Err(FromStrError { target: "ActionKind" }),
        }
    }

    /// The symbol the rule books print for this kind of action.
    pub fn symbol(&self) -> (r: &'static str)
        ensures
            r@ == spec_symbol(*self),
    {
        match self {
            ActionKind::One => "\u{25b6}",
            ActionKind::Two => "\u{25b6}\u{25b6}",
            ActionKind::Three => "\u{25b6}\u{25b6}\u{25b6}",
            ActionKind::Free => "\u{25b7}",
            ActionKind::Reaction => "\u{21a9}",
        }
    }
}

} // verus!
