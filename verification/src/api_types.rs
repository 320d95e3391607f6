//! Typed shapes of the character service's responses, and the class →
//! ascendancy name mapping.
//!
//! The service's JSON is decoded outside this crate; these types carry the
//! decoded fields the application reads. Fields the service may omit
//! default rather than fail, which is why every field has a plain default
//! value.

use vstd::prelude::*;
use std::collections::HashMap;
use crate::text::str_eq;

verus! {

/// One character of an account's character list.
#[derive(Debug, Clone)]
pub struct PoeCharacter {
    pub name: String,
    pub league: String,
    pub class_id: u32,
    pub ascendancy_class: u32,
    pub class: String,
    pub level: u32,
    pub experience: u64,
}

/// The character summary attached to an item response.
#[derive(Debug, Clone)]
pub struct PoeCharacterInfo {
    pub name: String,
    pub league: String,
    pub class_id: u32,
    pub ascendancy_class: u32,
    pub class: String,
    pub level: u32,
    pub experience: u64,
}

/// One socket of an item.
#[derive(Debug, Clone)]
pub struct PoeSocket {
    pub group: u32,
    pub attr: String,
}

/// A character's allocated passive skills.
#[derive(Debug, Clone)]
pub struct PassiveSkills {
    pub hashes: Vec<u32>,
    pub hashes_ex: Vec<u32>,
    pub mastery_effects: HashMap<String, u32>,
}

/// The ascendancy names of each base class, in the order the service
/// numbers them (1, 2, 3).
pub open spec fn spec_ascendancies_of(class: Seq<char>) -> Seq<Seq<char>> {
    if class == "Scion"@ {
        seq!["Ascendant"@]
    } else if class == "Marauder"@ {
        seq!["Juggernaut"@, "Berserker"@, "Chieftain"@]
    } else if class == "Ranger"@ {
        seq!["Warden"@, "Deadeye"@, "Pathfinder"@]
    } else if class == "Witch"@ {
        seq!["Necromancer"@, "Elementalist"@, "Occultist"@]
    } else if class == "Duelist"@ {
        seq!["Slayer"@, "Gladiator"@, "Champion"@]
    } else if class == "Templar"@ {
        seq!["Inquisitor"@, "Hierophant"@, "Guardian"@]
    } else if class == "Shadow"@ {
        seq!["Assassin"@, "Saboteur"@, "Trickster"@]
    } else {
        Seq::empty()
    }
}

/// The ascendancy name for a class and the service's ascendancy number:
/// number 0 means none was chosen, and an unknown class or out-of-range
/// number yields none.
pub open spec fn spec_ascendancy_name(class: Seq<char>, ascendancy_class: u32) -> Option<
    Seq<char>,
> {
    if ascendancy_class == 0 {
        None
    } else {
        let names = spec_ascendancies_of(class);
        let idx = ascendancy_class - 1;
        if idx < names.len() {
            Some(names[idx as int])
        } else {
            None
        }
    }
}

/// Map a base class name and ascendancy number to the ascendancy's name.
pub fn get_ascendancy_name(class: &str, ascendancy_class: u32) -> (r: Option<String>)
    ensures
        (match r {
            Some(name) => spec_ascendancy_name(class@, ascendancy_class) == Some(name@),
            None => spec_ascendancy_name(class@, ascendancy_class) is None,
        }),
{
    if ascendancy_class == 0 {
        return None;
    }
    let idx = ascendancy_class - 1;
    if str_eq(class, "Scion") {
        if idx == 0 {
            Some("Ascendant".to_owned())
        } else {
            None
        }
    } else if str_eq(class, "Marauder") {
        pick3("Juggernaut", "Berserker", "Chieftain", idx)
    } else if str_eq(class, "Ranger") {
        pick3("Warden", "Deadeye", "Pathfinder", idx)
    } else if str_eq(class, "Witch") {
        pick3("Necromancer", "Elementalist", "Occultist", idx)
    } else if str_eq(class, "Duelist") {
        pick3("Slayer", "Gladiator", "Champion", idx)
    } else if str_eq(class, "Templar") {
        pick3("Inquisitor", "Hierophant", "Guardian", idx)
    } else if str_eq(class, "Shadow") {
        pick3("Assassin", "Saboteur", "Trickster", idx)
    } else {
        None
    }
}

/// The `idx`-th of three names, owned.
fn pick3(a: &str, b: &str, c: &str, idx: u32) -> (r: Option<String>)
    ensures
        idx == 0 ==> r is Some && r->0@ == a@,
        idx == 1 ==> r is Some && r->0@ == b@,
        idx == 2 ==> r is Some && r->0@ == c@,
        idx >= 3 ==> r is None,
{
    if idx == 0 {
        Some(a.to_owned())
    } else if idx == 1 {
        Some(b.to_owned())
    } else if idx == 2 {
        Some(c.to_owned())
    } else {
        None
    }
}

} // verus!
