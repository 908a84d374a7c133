//! Character-sheet data: the modifier tables a loaded character carries.

use vstd::prelude::*;

verus! {

/// The six attribute modifiers of a character sheet.
#[derive(Debug, PartialEq, Eq, Clone)]
pub struct AttributeModifiers<T> {
    pub strength: T,
    pub dexterity: T,
    pub constitution: T,
    pub intelligence: T,
    pub wisdom: T,
    pub charisma: T,
}

/// The eighteen skill modifiers of a character sheet.
#[derive(Debug, PartialEq, Eq, Clone)]
pub struct SkillModifiers<T> {
    pub acrobatics: T,
    pub animal_handling: T,
    pub arcana: T,
    pub athletics: T,
    pub deception: T,
    pub history: T,
    pub insight: T,
    pub intimidation: T,
    pub investigation: T,
    pub medicine: T,
    pub nature: T,
    pub perception: T,
    pub performance: T,
    pub persuasion: T,
    pub religion: T,
    pub sleight_of_hand: T,
    pub stealth: T,
    pub survival: T,
}

/// One playable character: a name, the attribute, saving-throw and skill
/// modifier tables, and an initiative modifier.
#[derive(Debug, PartialEq, Eq, Clone)]
pub struct Character {
    pub name: String,
    pub attribute_modifiers: AttributeModifiers<i8>,
    pub saving_throw_modifiers: AttributeModifiers<i8>,
    pub skill_modifiers: SkillModifiers<i8>,
    pub initiative_modifier: i8,
}

} // verus!
