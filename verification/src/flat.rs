//! The world as a FlatBuffers schema sees it: tables in which every string,
//! struct and vector may be absent. Writing a world puts every field in its
//! table; reading a table fills what is absent with a default.

use vstd::prelude::*;
use crate::codec::Codec;
use crate::world::{Character, CharacterModel, Guild, GuildModel, Item, ItemModel, Vec3, WorldState,
    WorldStateModel};

verus! {

/// An item as a table.
#[derive(Clone, Debug, Default, PartialEq, Eq)]
pub struct FlatItem {
    pub id: i32,
    pub name: Option<String>,
    pub value: i32,
    pub weight: i32,
    pub rarity: Option<String>,
}

/// What a `FlatItem` stands for.
pub struct FlatItemModel {
    pub id: i32,
    pub name: Option<Seq<char>>,
    pub value: i32,
    pub weight: i32,
    pub rarity: Option<Seq<char>>,
}

/// The text of a string that may be absent.
pub open spec fn text(s: Option<String>) -> Option<Seq<char>> {
    match s {
        Some(s) => Some(s@),
        None => None,
    }
}

impl View for FlatItem {
    type V = FlatItemModel;

    open spec fn view(&self) -> FlatItemModel {
        FlatItemModel {
            id: self.id,
            name: text(self.name),
            value: self.value,
            weight: self.weight,
            rarity: text(self.rarity),
        }
    }
}

/// The items of a vector of tables.
pub open spec fn items(v: Vec<FlatItem>) -> Seq<FlatItemModel> {
    Seq::new(v@.len(), |i: int| v@[i]@)
}

/// A character as a table.
#[derive(Clone, Debug, Default, PartialEq, Eq)]
pub struct FlatCharacter {
    pub name: Option<String>,
    pub level: i32,
    pub hp: i32,
    pub mp: i32,
    pub is_alive: bool,
    pub position: Option<Vec3>,
    pub skills: Option<Vec<i32>>,
    pub inventory: Option<Vec<FlatItem>>,
}

/// What a `FlatCharacter` stands for.
pub struct FlatCharacterModel {
    pub name: Option<Seq<char>>,
    pub level: i32,
    pub hp: i32,
    pub mp: i32,
    pub is_alive: bool,
    pub position: Option<Vec3>,
    pub skills: Option<Seq<i32>>,
    pub inventory: Option<Seq<FlatItemModel>>,
}

impl View for FlatCharacter {
    type V = FlatCharacterModel;

    open spec fn view(&self) -> FlatCharacterModel {
        FlatCharacterModel {
            name: text(self.name),
            level: self.level,
            hp: self.hp,
            mp: self.mp,
            is_alive: self.is_alive,
            position: self.position,
            skills: match self.skills {
                Some(v) => Some(v@),
                None => None,
            },
            inventory: match self.inventory {
                Some(v) => Some(items(v)),
                None => None,
            },
        }
    }
}

/// A guild as a table.
#[derive(Clone, Debug, Default, PartialEq, Eq)]
pub struct FlatGuild {
    pub name: Option<String>,
    pub description: Option<String>,
    pub members: Option<Vec<FlatCharacter>>,
}

/// What a `FlatGuild` stands for.
pub struct FlatGuildModel {
    pub name: Option<Seq<char>>,
    pub description: Option<Seq<char>>,
    pub members: Option<Seq<FlatCharacterModel>>,
}

impl View for FlatGuild {
    type V = FlatGuildModel;

    open spec fn view(&self) -> FlatGuildModel {
        FlatGuildModel {
            name: text(self.name),
            description: text(self.description),
            members: match self.members {
                Some(v) => Some(Seq::new(v@.len(), |i: int| v@[i]@)),
                None => None,
            },
        }
    }
}

/// A world as a table.
#[derive(Clone, Debug, Default, PartialEq, Eq)]
pub struct FlatWorldState {
    pub world_id: i32,
    pub seed: Option<String>,
    pub guilds: Option<Vec<FlatGuild>>,
    pub loot_table: Option<Vec<FlatItem>>,
}

/// What a `FlatWorldState` stands for.
pub struct FlatWorldStateModel {
    pub world_id: i32,
    pub seed: Option<Seq<char>>,
    pub guilds: Option<Seq<FlatGuildModel>>,
    pub loot_table: Option<Seq<FlatItemModel>>,
}

impl View for FlatWorldState {
    type V = FlatWorldStateModel;

    open spec fn view(&self) -> FlatWorldStateModel {
        FlatWorldStateModel {
            world_id: self.world_id,
            seed: text(self.seed),
            guilds: match self.guilds {
                Some(v) => Some(Seq::new(v@.len(), |i: int| v@[i]@)),
                None => None,
            },
            loot_table: match self.loot_table {
                Some(v) => Some(items(v)),
                None => None,
            },
        }
    }
}

/// A string that is absent reads as the empty string.
pub open spec fn text_or_empty(s: Option<Seq<char>>) -> Seq<char> {
    match s {
        Some(s) => s,
        None => Seq::empty(),
    }
}

/// The item that a table is read as.
pub open spec fn item_read(t: FlatItemModel) -> ItemModel {
    ItemModel {
        id: t.id,
        name: text_or_empty(t.name),
        value: t.value,
        weight: t.weight,
        rarity: text_or_empty(t.rarity),
    }
}

/// The items that a vector of tables is read as; an absent vector reads as
/// no items.
pub open spec fn items_read(v: Option<Seq<FlatItemModel>>) -> Seq<ItemModel> {
    match v {
        Some(v) => Seq::new(v.len(), |i: int| item_read(v[i])),
        None => Seq::empty(),
    }
}

/// The character that a table is read as. An absent position reads as the
/// origin, an absent vector as empty.
pub open spec fn character_read(t: FlatCharacterModel) -> CharacterModel {
    CharacterModel {
        name: text_or_empty(t.name),
        level: t.level,
        hp: t.hp,
        mp: t.mp,
        is_alive: t.is_alive,
        position: match t.position {
            Some(p) => p,
            None => Vec3 { x: 0, y: 0, z: 0 },
        },
        skills: match t.skills {
            Some(s) => s,
            None => Seq::empty(),
        },
        inventory: items_read(t.inventory),
    }
}

/// The guild that a table is read as.
pub open spec fn guild_read(t: FlatGuildModel) -> GuildModel {
    GuildModel {
        name: text_or_empty(t.name),
        description: text_or_empty(t.description),
        members: match t.members {
            Some(v) => Seq::new(v.len(), |i: int| character_read(v[i])),
            None => Seq::empty(),
        },
    }
}

/// The world that a table is read as.
pub open spec fn world_read(t: FlatWorldStateModel) -> WorldStateModel {
    WorldStateModel {
        world_id: t.world_id,
        seed: text_or_empty(t.seed),
        guilds: match t.guilds {
            Some(v) => Seq::new(v.len(), |i: int| guild_read(v[i])),
            None => Seq::empty(),
        },
        loot_table: items_read(t.loot_table),
    }
}

/// The table for an item: every field present.
pub open spec fn item_table(m: ItemModel) -> FlatItemModel {
    FlatItemModel {
        id: m.id,
        name: Some(m.name),
        value: m.value,
        weight: m.weight,
        rarity: Some(m.rarity),
    }
}

/// The table for a character: every field present.
pub open spec fn character_table(m: CharacterModel) -> FlatCharacterModel {
    FlatCharacterModel {
        name: Some(m.name),
        level: m.level,
        hp: m.hp,
        mp: m.mp,
        is_alive: m.is_alive,
        position: Some(m.position),
        skills: Some(m.skills),
        inventory: Some(Seq::new(m.inventory.len(), |i: int| item_table(m.inventory[i]))),
    }
}

/// The table for a guild: every field present.
pub open spec fn guild_table(m: GuildModel) -> FlatGuildModel {
    FlatGuildModel {
        name: Some(m.name),
        description: Some(m.description),
        members: Some(Seq::new(m.members.len(), |i: int| character_table(m.members[i]))),
    }
}

/// The table for a world: every field present.
pub open spec fn world_table(m: WorldStateModel) -> FlatWorldStateModel {
    FlatWorldStateModel {
        world_id: m.world_id,
        seed: Some(m.seed),
        guilds: Some(Seq::new(m.guilds.len(), |i: int| guild_table(m.guilds[i]))),
        loot_table: Some(Seq::new(m.loot_table.len(), |i: int| item_table(m.loot_table[i]))),
    }
}

/// Reading the table that was made for a character gives the character back.
pub proof fn lemma_character_table_read(m: CharacterModel)
    ensures
        character_read(character_table(m)) == m,
{
    assert(character_read(character_table(m)).inventory =~= m.inventory);
}

/// Reading the table that was made for a guild gives the guild back.
pub proof fn lemma_guild_table_read(m: GuildModel)
    ensures
        guild_read(guild_table(m)) == m,
{
    assert forall|i: int| 0 <= i < m.members.len() implies character_read(
        character_table(#[trigger] m.members[i]),
    ) == m.members[i] by {
        lemma_character_table_read(m.members[i]);
    }
    assert(guild_read(guild_table(m)).members =~= m.members);
}

/// Reading the table that was made for a world gives the world back.
pub proof fn lemma_world_table_read(m: WorldStateModel)
    ensures
        world_read(world_table(m)) == m,
{
    assert forall|i: int| 0 <= i < m.guilds.len() implies guild_read(
        guild_table(#[trigger] m.guilds[i]),
    ) == m.guilds[i] by {
        lemma_guild_table_read(m.guilds[i]);
    }
    assert(world_read(world_table(m)).guilds =~= m.guilds);
    assert(world_read(world_table(m)).loot_table =~= m.loot_table);
}

/// The same law of the calls themselves: whatever table `to_fb` made of a
/// world, `from_fb` reads a world with the same model out of it.
pub proof fn lemma_from_fb_after_to_fb(world: &WorldState, table: FlatWorldState, back: WorldState)
    requires
        call_ensures(to_fb, (world,), table),
        call_ensures(from_fb, (&table,), back),
    ensures
        back@ == world@,
{
    lemma_world_table_read(world@);
}

/// The string, or the empty string where there is none.
fn string_or_empty(s: &Option<String>) -> (r: String)
    ensures
        r@ == text_or_empty(text(*s)),
{
    match s {
        Some(s) => s.clone(),
        None => String::new(),
    }
}

/// A copy of a vector of numbers.
fn numbers_copy(v: &Vec<i32>) -> (r: Vec<i32>)
    ensures
        r@ == v@,
{
    let mut r: Vec<i32> = Vec::new();
    let mut i: usize = 0;
    while i < v.len()
        invariant
            i <= v.len(),
            r@ == v@.take(i as int),
        decreases v.len() - i,
    {
        r.push(v[i]);
        assert(r@ =~= v@.take(i + 1));
        i = i + 1;
    }
    assert(v@.take(v.len() as int) =~= v@);
    r
}

/// The item that a table holds.
fn item_from_fb(t: &FlatItem) -> (r: Item)
    ensures
        r@ == item_read(t@),
{
    Item {
        id: t.id,
        name: string_or_empty(&t.name),
        value: t.value,
        weight: t.weight,
        rarity: string_or_empty(&t.rarity),
    }
}

/// The items that a vector of tables holds.
fn items_from_fb(v: &Option<Vec<FlatItem>>) -> (r: Vec<Item>)
    ensures
        r.model() == items_read(
            match *v {
                Some(v) => Some(items(v)),
                None => None,
            },
        ),
{
    let mut r: Vec<Item> = Vec::new();
    match v {
        Some(v) => {
            let mut i: usize = 0;
            while i < v.len()
                invariant
                    i <= v.len(),
                    r@.len() == i,
                    forall|j: int| 0 <= j < i ==> (#[trigger] r@[j])@ == item_read(v@[j]@),
                decreases v.len() - i,
            {
                r.push(item_from_fb(&v[i]));
                i = i + 1;
            }
            assert(r.model() =~= items_read(Some(items(*v))));
        },
        None => {
            assert(r.model() =~= items_read(None));
        },
    }
    r
}

/// The character that a table holds.
fn character_from_fb(t: &FlatCharacter) -> (r: Character)
    ensures
        r@ == character_read(t@),
{
    let position = match &t.position {
        Some(p) => Vec3 { x: p.x, y: p.y, z: p.z },
        None => Vec3 { x: 0, y: 0, z: 0 },
    };
    let skills = match &t.skills {
        Some(s) => numbers_copy(s),
        None => Vec::new(),
    };
    let r = Character {
        name: string_or_empty(&t.name),
        level: t.level,
        hp: t.hp,
        mp: t.mp,
        is_alive: t.is_alive,
        position,
        skills,
        inventory: items_from_fb(&t.inventory),
    };
    assert(r@.skills =~= character_read(t@).skills);
    r
}

/// The guild that a table holds.
fn guild_from_fb(t: &FlatGuild) -> (r: Guild)
    ensures
        r@ == guild_read(t@),
{
    let mut members: Vec<Character> = Vec::new();
    match &t.members {
        Some(v) => {
            let mut i: usize = 0;
            while i < v.len()
                invariant
                    i <= v.len(),
                    members@.len() == i,
                    forall|j: int|
                        0 <= j < i ==> (#[trigger] members@[j])@ == character_read(v@[j]@),
                decreases v.len() - i,
            {
                members.push(character_from_fb(&v[i]));
                i = i + 1;
            }
        },
        None => {},
    }
    let r = Guild {
        name: string_or_empty(&t.name),
        description: string_or_empty(&t.description),
        members,
    };
    assert(r@.members =~= guild_read(t@).members);
    r
}

/// Reads a world out of its table. Whatever is absent is filled with a
/// default: the empty string, the origin, the empty list.
pub fn from_fb(t: &FlatWorldState) -> (r: WorldState)
    ensures
        r@ == world_read(t@),
{
    let mut guilds: Vec<Guild> = Vec::new();
    match &t.guilds {
        Some(v) => {
            let mut i: usize = 0;
            while i < v.len()
                invariant
                    i <= v.len(),
                    guilds@.len() == i,
                    forall|j: int| 0 <= j < i ==> (#[trigger] guilds@[j])@ == guild_read(v@[j]@),
                decreases v.len() - i,
            {
                guilds.push(guild_from_fb(&v[i]));
                i = i + 1;
            }
        },
        None => {},
    }
    let r = WorldState {
        world_id: t.world_id,
        seed: string_or_empty(&t.seed),
        guilds,
        loot_table: items_from_fb(&t.loot_table),
    };
    assert(r@.guilds =~= world_read(t@).guilds);
    r
}

/// The table for an item.
fn item_to_fb(m: &Item) -> (r: FlatItem)
    ensures
        r@ == item_table(m@),
{
    FlatItem {
        id: m.id,
        name: Some(m.name.clone()),
        value: m.value,
        weight: m.weight,
        rarity: Some(m.rarity.clone()),
    }
}

/// The tables for a list of items.
fn items_to_fb(v: &Vec<Item>) -> (r: Vec<FlatItem>)
    ensures
        items(r) == Seq::new(v.model().len(), |i: int| item_table(v.model()[i])),
{
    let mut r: Vec<FlatItem> = Vec::new();
    let mut i: usize = 0;
    while i < v.len()
        invariant
            i <= v.len(),
            r@.len() == i,
            forall|j: int| 0 <= j < i ==> (#[trigger] r@[j])@ == item_table(v@[j]@),
        decreases v.len() - i,
    {
        r.push(item_to_fb(&v[i]));
        i = i + 1;
    }
    assert(items(r) =~= Seq::new(v.model().len(), |i: int| item_table(v.model()[i])));
    r
}

/// The table for a character.
fn character_to_fb(m: &Character) -> (r: FlatCharacter)
    ensures
        r@ == character_table(m@),
{
    let r = FlatCharacter {
        name: Some(m.name.clone()),
        level: m.level,
        hp: m.hp,
        mp: m.mp,
        is_alive: m.is_alive,
        position: Some(Vec3 { x: m.position.x, y: m.position.y, z: m.position.z }),
        skills: Some(numbers_copy(&m.skills)),
        inventory: Some(items_to_fb(&m.inventory)),
    };
    assert(r@.skills == Some(m@.skills)) by {
        assert(m.skills@ =~= m@.skills);
    }
    r
}

/// The table for a guild.
fn guild_to_fb(m: &Guild) -> (r: FlatGuild)
    ensures
        r@ == guild_table(m@),
{
    let mut members: Vec<FlatCharacter> = Vec::new();
    let mut i: usize = 0;
    while i < m.members.len()
        invariant
            i <= m.members.len(),
            members@.len() == i,
            forall|j: int|
                0 <= j < i ==> (#[trigger] members@[j])@ == character_table(m.members@[j]@),
        decreases m.members.len() - i,
    {
        members.push(character_to_fb(&m.members[i]));
        i = i + 1;
    }
    let r = FlatGuild {
        name: Some(m.name.clone()),
        description: Some(m.description.clone()),
        members: Some(members),
    };
    assert(r@.members.unwrap() =~= guild_table(m@).members.unwrap());
    r
}

/// Lays a world out as a table with every field present, the way a
/// FlatBuffers builder is fed.
pub fn to_fb(m: &WorldState) -> (r: FlatWorldState)
    ensures
        r@ == world_table(m@),
{
    let mut guilds: Vec<FlatGuild> = Vec::new();
    let mut i: usize = 0;
    while i < m.guilds.len()
        invariant
            i <= m.guilds.len(),
            guilds@.len() == i,
            forall|j: int| 0 <= j < i ==> (#[trigger] guilds@[j])@ == guild_table(m.guilds@[j]@),
        decreases m.guilds.len() - i,
    {
        guilds.push(guild_to_fb(&m.guilds[i]));
        i = i + 1;
    }
    let r = FlatWorldState {
        world_id: m.world_id,
        seed: Some(m.seed.clone()),
        guilds: Some(guilds),
        loot_table: Some(items_to_fb(&m.loot_table)),
    };
    assert(r@.guilds.unwrap() =~= world_table(m@).guilds.unwrap());
    r
}

} // verus!
