//! The world as a Protocol Buffers schema sees it: the same records, with
//! the one difference that a nested message may be absent. The values built
//! here are what a Protocol Buffers encoder is handed.

use vstd::prelude::*;
use crate::codec::Codec;
use crate::world::{Character, CharacterModel, Guild, GuildModel, Item, ItemModel, Vec3, WorldState,
    WorldStateModel};

verus! {

/// A character as a message: its position is a nested message and so may
/// be absent.
#[derive(Clone, Debug, Default, PartialEq, Eq)]
pub struct ProtoCharacter {
    pub name: String,
    pub level: i32,
    pub hp: i32,
    pub mp: i32,
    pub is_alive: bool,
    pub position: Option<Vec3>,
    pub skills: Vec<i32>,
    pub inventory: Vec<Item>,
}

/// What a `ProtoCharacter` stands for.
pub struct ProtoCharacterModel {
    pub name: Seq<char>,
    pub level: i32,
    pub hp: i32,
    pub mp: i32,
    pub is_alive: bool,
    pub position: Option<Vec3>,
    pub skills: Seq<i32>,
    pub inventory: Seq<ItemModel>,
}

impl View for ProtoCharacter {
    type V = ProtoCharacterModel;

    open spec fn view(&self) -> ProtoCharacterModel {
        ProtoCharacterModel {
            name: self.name@,
            level: self.level,
            hp: self.hp,
            mp: self.mp,
            is_alive: self.is_alive,
            position: self.position,
            skills: self.skills@,
            inventory: self.inventory.model(),
        }
    }
}

/// A guild as a message.
#[derive(Clone, Debug, Default, PartialEq, Eq)]
pub struct ProtoGuild {
    pub name: String,
    pub description: String,
    pub members: Vec<ProtoCharacter>,
}

/// What a `ProtoGuild` stands for.
pub struct ProtoGuildModel {
    pub name: Seq<char>,
    pub description: Seq<char>,
    pub members: Seq<ProtoCharacterModel>,
}

impl View for ProtoGuild {
    type V = ProtoGuildModel;

    open spec fn view(&self) -> ProtoGuildModel {
        ProtoGuildModel {
            name: self.name@,
            description: self.description@,
            members: Seq::new(self.members@.len(), |i: int| self.members@[i]@),
        }
    }
}

/// A world as a message.
#[derive(Clone, Debug, Default, PartialEq, Eq)]
pub struct ProtoWorldState {
    pub world_id: i32,
    pub seed: String,
    pub guilds: Vec<ProtoGuild>,
    pub loot_table: Vec<Item>,
}

/// What a `ProtoWorldState` stands for.
pub struct ProtoWorldStateModel {
    pub world_id: i32,
    pub seed: Seq<char>,
    pub guilds: Seq<ProtoGuildModel>,
    pub loot_table: Seq<ItemModel>,
}

impl View for ProtoWorldState {
    type V = ProtoWorldStateModel;

    open spec fn view(&self) -> ProtoWorldStateModel {
        ProtoWorldStateModel {
            world_id: self.world_id,
            seed: self.seed@,
            guilds: Seq::new(self.guilds@.len(), |i: int| self.guilds@[i]@),
            loot_table: self.loot_table.model(),
        }
    }
}

/// The message for a character: every field as it is, the position present.
pub open spec fn character_message(c: CharacterModel) -> ProtoCharacterModel {
    ProtoCharacterModel {
        name: c.name,
        level: c.level,
        hp: c.hp,
        mp: c.mp,
        is_alive: c.is_alive,
        position: Some(c.position),
        skills: c.skills,
        inventory: c.inventory,
    }
}

/// The message for a guild: its members in order, each as a message.
pub open spec fn guild_message(g: GuildModel) -> ProtoGuildModel {
    ProtoGuildModel {
        name: g.name,
        description: g.description,
        members: Seq::new(g.members.len(), |i: int| character_message(g.members[i])),
    }
}

/// The message for a world: its guilds in order, each as a message. The
/// loot table is not carried over: the message's is empty.
pub open spec fn world_message(w: WorldStateModel) -> ProtoWorldStateModel {
    ProtoWorldStateModel {
        world_id: w.world_id,
        seed: w.seed,
        guilds: Seq::new(w.guilds.len(), |i: int| guild_message(w.guilds[i])),
        loot_table: Seq::empty(),
    }
}

/// A copy of an item that shares nothing with it.
fn item_copy(item: &Item) -> (r: Item)
    ensures
        r@ == item@,
{
    Item {
        id: item.id,
        name: item.name.clone(),
        value: item.value,
        weight: item.weight,
        rarity: item.rarity.clone(),
    }
}

/// The message for one character.
fn character_from_bp(c: &Character) -> (r: ProtoCharacter)
    ensures
        r@ == character_message(c@),
{
    let mut inventory: Vec<Item> = Vec::new();
    let mut i: usize = 0;
    while i < c.inventory.len()
        invariant
            i <= c.inventory.len(),
            inventory@.len() == i,
            forall|j: int| 0 <= j < i ==> (#[trigger] inventory@[j])@ == c.inventory@[j]@,
        decreases c.inventory.len() - i,
    {
        inventory.push(item_copy(&c.inventory[i]));
        i = i + 1;
    }
    let mut skills: Vec<i32> = Vec::new();
    let mut k: usize = 0;
    while k < c.skills.len()
        invariant
            k <= c.skills.len(),
            skills@ == c.skills@.take(k as int),
        decreases c.skills.len() - k,
    {
        skills.push(c.skills[k]);
        assert(skills@ =~= c.skills@.take(k + 1));
        k = k + 1;
    }
    let r = ProtoCharacter {
        name: c.name.clone(),
        level: c.level,
        hp: c.hp,
        mp: c.mp,
        is_alive: c.is_alive,
        position: Some(Vec3 { x: c.position.x, y: c.position.y, z: c.position.z }),
        skills,
        inventory,
    };
    proof {
        assert(r@.skills =~= c@.skills);
        assert(r@.inventory =~= c@.inventory);
    }
    r
}

/// The message for one guild.
fn guild_from_bp(g: &Guild) -> (r: ProtoGuild)
    ensures
        r@ == guild_message(g@),
{
    let mut members: Vec<ProtoCharacter> = Vec::new();
    let mut i: usize = 0;
    while i < g.members.len()
        invariant
            i <= g.members.len(),
            members@.len() == i,
            forall|j: int|
                0 <= j < i ==> (#[trigger] members@[j])@ == character_message(g.members@[j]@),
        decreases g.members.len() - i,
    {
        members.push(character_from_bp(&g.members[i]));
        i = i + 1;
    }
    let r = ProtoGuild { name: g.name.clone(), description: g.description.clone(), members };
    proof {
        assert(r@.members =~= guild_message(g@).members);
    }
    r
}

/// The message for a world: a deep copy in which every character's position
/// is present. The loot table is left behind: the message's is empty.
pub fn from_bp(src: &WorldState) -> (r: ProtoWorldState)
    ensures
        r@ == world_message(src@),
{
    let mut guilds: Vec<ProtoGuild> = Vec::new();
    let mut i: usize = 0;
    while i < src.guilds.len()
        invariant
            i <= src.guilds.len(),
            guilds@.len() == i,
            forall|j: int| 0 <= j < i ==> (#[trigger] guilds@[j])@ == guild_message(src.guilds@[j]@),
        decreases src.guilds.len() - i,
    {
        guilds.push(guild_from_bp(&src.guilds[i]));
        i = i + 1;
    }
    let r = ProtoWorldState {
        world_id: src.world_id,
        seed: src.seed.clone(),
        guilds,
        loot_table: Vec::new(),
    };
    proof {
        assert(r@.guilds =~= world_message(src@).guilds);
        assert(r@.loot_table =~= Seq::<ItemModel>::empty());
    }
    r
}

} // verus!
