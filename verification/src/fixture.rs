//! The fixture of the conformance check between implementations: one small
//! world with known values in every field, and the test that a decoded
//! world is that world, value for value.

use vstd::prelude::*;
use crate::wire::{Wire, lemma_text_encodable};
use crate::world::{Character, CharacterModel, Guild, GuildModel, Item, ItemModel, Vec3, WorldState,
    WorldStateModel};

verus! {

/// The hero of the fixture.
pub open spec fn fixture_hero() -> CharacterModel {
    CharacterModel {
        name: "TestHero"@,
        level: 99,
        hp: 1000,
        mp: 500,
        is_alive: true,
        position: Vec3 { x: 10, y: -20i32, z: 30 },
        skills: seq![1i32, 2i32, 3i32, 100i32],
        inventory: seq![
            ItemModel {
                id: 1,
                name: "Excalibur"@,
                value: 9999,
                weight: 15,
                rarity: "Legendary"@,
            },
        ],
    }
}

/// The world of the fixture: one guild with one hero, and one item of loot.
pub open spec fn fixture() -> WorldStateModel {
    WorldStateModel {
        world_id: 42,
        seed: "cross_lang_test"@,
        guilds: seq![
            GuildModel {
                name: "TestGuild"@,
                description: "A test guild for cross-language"@,
                members: seq![fixture_hero()],
            },
        ],
        loot_table: seq![
            ItemModel {
                id: 2,
                name: "HealthPotion"@,
                value: 50,
                weight: 1,
                rarity: "Common"@,
            },
        ],
    }
}

/// The fixture can be written, so that encoding it never fails.
pub proof fn lemma_fixture_encodable()
    ensures
        fixture().encodable(),
{
    reveal_strlit("cross_lang_test");
    reveal_strlit("TestGuild");
    reveal_strlit("A test guild for cross-language");
    reveal_strlit("TestHero");
    reveal_strlit("Excalibur");
    reveal_strlit("Legendary");
    reveal_strlit("HealthPotion");
    reveal_strlit("Common");
    let w = fixture();
    let guild = w.guilds[0];
    let hero = fixture_hero();
    lemma_text_encodable(w.seed);
    lemma_text_encodable(guild.name);
    lemma_text_encodable(guild.description);
    lemma_text_encodable(hero.name);
    lemma_text_encodable(hero.inventory[0].name);
    lemma_text_encodable(hero.inventory[0].rarity);
    lemma_text_encodable(w.loot_table[0].name);
    lemma_text_encodable(w.loot_table[0].rarity);
    assert(hero.skills.encodable());
    assert(hero.inventory.encodable());
    assert(hero.encodable());
    assert(guild.members.encodable());
    assert(w.guilds.encodable());
    assert(w.loot_table.encodable());
}

/// The name of the first value, in the order in which a world is read, in
/// which a character differs from the hero of the fixture; nothing where it
/// is the hero. Every field is held to its known value, and the inventory to
/// its one item.
pub open spec fn hero_difference(c: CharacterModel) -> Option<Seq<char>> {
    if c.name != "TestHero"@ {
        Some("hero"@)
    } else if c.level != 99 {
        Some("level"@)
    } else if c.hp != 1000 {
        Some("hp"@)
    } else if c.mp != 500 {
        Some("mp"@)
    } else if !c.is_alive {
        Some("is_alive"@)
    } else if c.position.x != 10 {
        Some("x"@)
    } else if c.position.y != -20i32 {
        Some("y"@)
    } else if c.position.z != 30 {
        Some("z"@)
    } else if c.skills != seq![1i32, 2i32, 3i32, 100i32] {
        Some("skills"@)
    } else if c.inventory.len() != 1 {
        Some("inventory"@)
    } else if c.inventory[0].id != 1 {
        Some("sword_id"@)
    } else if c.inventory[0].name != "Excalibur"@ {
        Some("sword"@)
    } else if c.inventory[0].value != 9999 {
        Some("sword_val"@)
    } else if c.inventory[0].weight != 15 {
        Some("sword_weight"@)
    } else if c.inventory[0].rarity != "Legendary"@ {
        Some("sword_rarity"@)
    } else {
        None
    }
}

/// The name of the first value, in the order in which a world is read, in
/// which a world differs from the fixture; nothing where it is the fixture.
/// Every field is held to its known value and every list to its length.
pub open spec fn difference(d: WorldStateModel) -> Option<Seq<char>> {
    if d.world_id != 42 {
        Some("world_id"@)
    } else if d.seed != "cross_lang_test"@ {
        Some("seed"@)
    } else if d.guilds.len() != 1 {
        Some("guilds"@)
    } else if d.guilds[0].name != "TestGuild"@ {
        Some("guild"@)
    } else if d.guilds[0].description != "A test guild for cross-language"@ {
        Some("description"@)
    } else if d.guilds[0].members.len() != 1 {
        Some("members"@)
    } else if hero_difference(d.guilds[0].members[0]) is Some {
        hero_difference(d.guilds[0].members[0])
    } else if d.loot_table.len() != 1 {
        Some("loot_table"@)
    } else if d.loot_table[0].id != 2 {
        Some("potion_id"@)
    } else if d.loot_table[0].name != "HealthPotion"@ {
        Some("potion"@)
    } else if d.loot_table[0].value != 50 {
        Some("potion_val"@)
    } else if d.loot_table[0].weight != 1 {
        Some("potion_weight"@)
    } else if d.loot_table[0].rarity != "Common"@ {
        Some("rarity"@)
    } else {
        None
    }
}

/// A character differs from the hero in no value exactly when it is the
/// hero.
pub proof fn lemma_hero_difference(c: CharacterModel)
    ensures
        hero_difference(c) is None <==> c == fixture_hero(),
{
    if hero_difference(c) is None {
        assert(c.inventory =~= fixture_hero().inventory);
        assert(c.skills =~= fixture_hero().skills);
    }
}

/// A world differs from the fixture in no value exactly when it is the
/// fixture.
pub proof fn lemma_difference(d: WorldStateModel)
    ensures
        difference(d) is None <==> d == fixture(),
{
    if d.guilds.len() == 1 && d.guilds[0].members.len() == 1 {
        lemma_hero_difference(d.guilds[0].members[0]);
    }
    if difference(d) is None {
        assert(d.guilds[0].members =~= fixture().guilds[0].members);
        assert(d.guilds =~= fixture().guilds);
        assert(d.loot_table =~= fixture().loot_table);
    }
}

/// Whether the string reads as the literal.
fn reads(s: &String, literal: &str) -> (r: bool)
    ensures
        r == (s@ == literal@),
{
    let other = literal.to_owned();
    *s == other
}

/// Builds the fixture.
pub fn create_test_data() -> (w: WorldState)
    ensures
        w@ == fixture(),
{
    let sword = Item {
        id: 1,
        name: "Excalibur".to_owned(),
        value: 9999,
        weight: 15,
        rarity: "Legendary".to_owned(),
    };
    let hero = Character {
        name: "TestHero".to_owned(),
        level: 99,
        hp: 1000,
        mp: 500,
        is_alive: true,
        position: Vec3 { x: 10, y: -20, z: 30 },
        skills: vec![1, 2, 3, 100],
        inventory: vec![sword],
    };
    let guild = Guild {
        name: "TestGuild".to_owned(),
        description: "A test guild for cross-language".to_owned(),
        members: vec![hero],
    };
    let potion = Item {
        id: 2,
        name: "HealthPotion".to_owned(),
        value: 50,
        weight: 1,
        rarity: "Common".to_owned(),
    };
    let w = WorldState {
        world_id: 42,
        seed: "cross_lang_test".to_owned(),
        guilds: vec![guild],
        loot_table: vec![potion],
    };
    proof {
        assert(hero@.skills =~= fixture_hero().skills);
        assert(hero@.inventory =~= fixture_hero().inventory);
        assert(guild@.members =~= fixture().guilds[0].members);
        assert(w@.guilds =~= fixture().guilds);
        assert(w@.loot_table =~= fixture().loot_table);
    }
    w
}

/// What `hero_difference` says of a character, as the label itself.
fn hero_first_difference(c: &Character) -> (r: Option<&'static str>)
    ensures
        match hero_difference(c@) {
            None => r is None,
            Some(name) => (r matches Some(label) && label@ == name),
        },
{
    if !reads(&c.name, "TestHero") {
        return Some("hero");
    }
    if c.level != 99 {
        return Some("level");
    }
    if c.hp != 1000 {
        return Some("hp");
    }
    if c.mp != 500 {
        return Some("mp");
    }
    if !c.is_alive {
        return Some("is_alive");
    }
    if c.position.x != 10 {
        return Some("x");
    }
    if c.position.y != -20 {
        return Some("y");
    }
    if c.position.z != 30 {
        return Some("z");
    }
    if c.skills.len() != 4 || c.skills[0] != 1 || c.skills[1] != 2 || c.skills[2] != 3
        || c.skills[3] != 100 {
        assert(!(c@.skills =~= seq![1i32, 2i32, 3i32, 100i32]));
        return Some("skills");
    }
    assert(c@.skills =~= seq![1i32, 2i32, 3i32, 100i32]);
    if c.inventory.len() != 1 {
        return Some("inventory");
    }
    let sword = &c.inventory[0];
    if sword.id != 1 {
        return Some("sword_id");
    }
    if !reads(&sword.name, "Excalibur") {
        return Some("sword");
    }
    if sword.value != 9999 {
        return Some("sword_val");
    }
    if sword.weight != 15 {
        return Some("sword_weight");
    }
    if !reads(&sword.rarity, "Legendary") {
        return Some("sword_rarity");
    }
    None
}

/// Names the first value, in the order in which a world is read, in which a
/// decoded world differs from the fixture, or nothing where the world is the
/// fixture.
pub fn first_difference(d: &WorldState) -> (r: Option<&'static str>)
    ensures
        match difference(d@) {
            None => r is None,
            Some(name) => (r matches Some(label) && label@ == name),
        },
{
    if d.world_id != 42 {
        return Some("world_id");
    }
    if !reads(&d.seed, "cross_lang_test") {
        return Some("seed");
    }
    if d.guilds.len() != 1 {
        return Some("guilds");
    }
    let guild = &d.guilds[0];
    if !reads(&guild.name, "TestGuild") {
        return Some("guild");
    }
    if !reads(&guild.description, "A test guild for cross-language") {
        return Some("description");
    }
    if guild.members.len() != 1 {
        return Some("members");
    }
    let hero = hero_first_difference(&guild.members[0]);
    if hero.is_some() {
        return hero;
    }
    if d.loot_table.len() != 1 {
        return Some("loot_table");
    }
    let potion = &d.loot_table[0];
    if potion.id != 2 {
        return Some("potion_id");
    }
    if !reads(&potion.name, "HealthPotion") {
        return Some("potion");
    }
    if potion.value != 50 {
        return Some("potion_val");
    }
    if potion.weight != 1 {
        return Some("potion_weight");
    }
    if !reads(&potion.rarity, "Common") {
        return Some("rarity");
    }
    None
}

/// Tells whether a decoded world is the fixture: every field is held to its
/// known value and every list to its length.
pub fn verify(d: &WorldState) -> (ok: bool)
    ensures
        ok == (d@ == fixture()),
{
    proof {
        lemma_difference(d@);
    }
    first_difference(d).is_none()
}

} // verus!
