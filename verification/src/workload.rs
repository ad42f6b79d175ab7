//! The large world that throughput and size are measured on: a thousand
//! guilds of twenty characters with ten items each.

use vstd::prelude::*;
use vstd::string::StringExecFns;
use crate::wire::{Wire, lemma_text_encodable};
use crate::world::{Character, CharacterModel, Guild, GuildModel, Item, ItemModel, Vec3, WorldState,
    WorldStateModel};

verus! {

/// The number of guilds in the large world.
pub const GUILDS: usize = 1000;

/// The number of characters in each guild.
pub const MEMBERS: usize = 20;

/// The number of items that each character carries.
pub const ITEMS: usize = 10;

/// The number of times that "Item" stands at the start of an item's name.
pub const NAME_REPEATS: usize = 50;

/// The character for a digit below ten.
pub open spec fn digit(d: nat) -> char {
    if d == 0 {
        '0'
    } else if d == 1 {
        '1'
    } else if d == 2 {
        '2'
    } else if d == 3 {
        '3'
    } else if d == 4 {
        '4'
    } else if d == 5 {
        '5'
    } else if d == 6 {
        '6'
    } else if d == 7 {
        '7'
    } else if d == 8 {
        '8'
    } else {
        '9'
    }
}

/// A number in decimal, without leading zeros.
pub open spec fn decimal(n: nat) -> Seq<char>
    decreases n,
{
    if n < 10 {
        seq![digit(n)]
    } else {
        decimal(n / 10).push(digit(n % 10))
    }
}

/// A text `n` times in a row.
pub open spec fn repeated(text: Seq<char>, n: nat) -> Seq<char>
    decreases n,
{
    if n == 0 {
        Seq::empty()
    } else {
        repeated(text, (n - 1) as nat) + text
    }
}

/// Item `i` of character `c` of guild `g`.
pub open spec fn large_item(g: nat, c: nat, i: nat) -> ItemModel {
    ItemModel {
        id: (g * 1000 + c * 100 + i) as i32,
        name: repeated("Item"@, NAME_REPEATS as nat) + "_"@ + decimal(g) + "_"@ + decimal(c) + "_"@
            + decimal(i),
        value: (i * 10) as i32,
        weight: 1,
        rarity: if i % 5 == 0 {
            "Rare"@
        } else {
            "Common"@
        },
    }
}

/// Character `c` of guild `g`.
pub open spec fn large_character(g: nat, c: nat) -> CharacterModel {
    CharacterModel {
        name: "Char_"@ + decimal(g) + "_"@ + decimal(c),
        level: (c + 1) as i32,
        hp: 100,
        mp: 50,
        is_alive: true,
        position: Vec3 { x: 10, y: 20, z: 30 },
        skills: seq![1i32, 2i32, 3i32, 4i32, 5i32],
        inventory: Seq::new(ITEMS as nat, |i: int| large_item(g, c, i as nat)),
    }
}

/// Guild `g`.
pub open spec fn large_guild(g: nat) -> GuildModel {
    GuildModel {
        name: "Guild_"@ + decimal(g),
        description: "A very powerful guild"@,
        members: Seq::new(MEMBERS as nat, |c: int| large_character(g, c as nat)),
    }
}

/// The large world. It has no loot.
pub open spec fn large_world() -> WorldStateModel {
    WorldStateModel {
        world_id: 1,
        seed: "benchmark_seed"@,
        guilds: Seq::new(GUILDS as nat, |g: int| large_guild(g as nat)),
        loot_table: Seq::empty(),
    }
}

/// A number in decimal has at least one digit and no more digits than the
/// number says.
pub proof fn lemma_decimal_len(n: nat)
    ensures
        1 <= decimal(n).len() <= n + 1,
    decreases n,
{
    if n >= 10 {
        lemma_decimal_len(n / 10);
    }
}

/// A text `n` times in a row is `n` times as long.
pub proof fn lemma_repeated_len(text: Seq<char>, n: nat)
    ensures
        repeated(text, n).len() == n * text.len(),
    decreases n,
{
    if n > 0 {
        lemma_repeated_len(text, (n - 1) as nat);
        assert(n * text.len() == (n - 1) * text.len() + text.len()) by (nonlinear_arith);
    } else {
        assert(n * text.len() == 0) by (nonlinear_arith)
            requires
                n == 0,
        ;
    }
}

/// Every item of the large world can be written.
pub proof fn lemma_large_item_encodable(g: nat, c: nat, i: nat)
    requires
        g < GUILDS,
        c < MEMBERS,
        i < ITEMS,
    ensures
        large_item(g, c, i).encodable(),
{
    reveal_strlit("Item");
    reveal_strlit("_");
    reveal_strlit("Rare");
    reveal_strlit("Common");
    lemma_repeated_len("Item"@, NAME_REPEATS as nat);
    lemma_decimal_len(g);
    lemma_decimal_len(c);
    lemma_decimal_len(i);
    lemma_text_encodable(large_item(g, c, i).name);
    lemma_text_encodable(large_item(g, c, i).rarity);
}

/// Every character of the large world can be written.
pub proof fn lemma_large_character_encodable(g: nat, c: nat)
    requires
        g < GUILDS,
        c < MEMBERS,
    ensures
        large_character(g, c).encodable(),
{
    reveal_strlit("Char_");
    reveal_strlit("_");
    lemma_decimal_len(g);
    lemma_decimal_len(c);
    let it = large_character(g, c);
    lemma_text_encodable(it.name);
    assert forall|i: int| 0 <= i < it.inventory.len() implies (#[trigger] it.inventory[i])
        .encodable() by {
        lemma_large_item_encodable(g, c, i as nat);
    }
    assert(it.skills.encodable());
    assert(it.inventory.encodable());
}

/// Every guild of the large world can be written.
pub proof fn lemma_large_guild_encodable(g: nat)
    requires
        g < GUILDS,
    ensures
        large_guild(g).encodable(),
{
    reveal_strlit("Guild_");
    reveal_strlit("A very powerful guild");
    lemma_decimal_len(g);
    let it = large_guild(g);
    lemma_text_encodable(it.name);
    lemma_text_encodable(it.description);
    assert forall|c: int| 0 <= c < it.members.len() implies (#[trigger] it.members[c])
        .encodable() by {
        lemma_large_character_encodable(g, c as nat);
    }
    assert(it.members.encodable());
}

/// The large world can be written, so that encoding it never fails.
pub proof fn lemma_large_world_encodable()
    ensures
        large_world().encodable(),
{
    reveal_strlit("benchmark_seed");
    let it = large_world();
    lemma_text_encodable(it.seed);
    assert forall|g: int| 0 <= g < it.guilds.len() implies (#[trigger] it.guilds[g])
        .encodable() by {
        lemma_large_guild_encodable(g as nat);
    }
    assert(it.guilds.encodable());
    assert(it.loot_table.encodable());
}

/// The digit `d` as a string.
fn digit_str(d: usize) -> (s: &'static str)
    requires
        d < 10,
    ensures
        s@ == seq![digit(d as nat)],
{
    proof {
        reveal_strlit("0");
        reveal_strlit("1");
        reveal_strlit("2");
        reveal_strlit("3");
        reveal_strlit("4");
        reveal_strlit("5");
        reveal_strlit("6");
        reveal_strlit("7");
        reveal_strlit("8");
        reveal_strlit("9");
    }
    let s = if d == 0 {
        "0"
    } else if d == 1 {
        "1"
    } else if d == 2 {
        "2"
    } else if d == 3 {
        "3"
    } else if d == 4 {
        "4"
    } else if d == 5 {
        "5"
    } else if d == 6 {
        "6"
    } else if d == 7 {
        "7"
    } else if d == 8 {
        "8"
    } else {
        "9"
    };
    assert(s@ =~= seq![digit(d as nat)]);
    s
}

/// Appends `n` in decimal to `text`.
fn push_decimal(text: &mut String, n: usize)
    ensures
        final(text)@ == old(text)@ + decimal(n as nat),
    decreases n,
{
    if n >= 10 {
        push_decimal(text, n / 10);
    }
    text.append(digit_str(n % 10));
    assert(text@ =~= old(text)@ + decimal(n as nat));
}

/// Item `i` of character `c` of guild `g`.
fn make_item(g: usize, c: usize, i: usize) -> (r: Item)
    requires
        g < GUILDS,
        c < MEMBERS,
        i < ITEMS,
    ensures
        r@ == large_item(g as nat, c as nat, i as nat),
{
    let mut name = String::new();
    let mut k: usize = 0;
    while k < NAME_REPEATS
        invariant
            k <= NAME_REPEATS,
            name@ == repeated("Item"@, k as nat),
        decreases NAME_REPEATS - k,
    {
        name.append("Item");
        k = k + 1;
    }
    name.append("_");
    push_decimal(&mut name, g);
    name.append("_");
    push_decimal(&mut name, c);
    name.append("_");
    push_decimal(&mut name, i);
    let rarity = if i % 5 == 0 {
        "Rare".to_owned()
    } else {
        "Common".to_owned()
    };
    Item { id: (g * 1000 + c * 100 + i) as i32, name, value: (i * 10) as i32, weight: 1, rarity }
}

/// Character `c` of guild `g`.
fn make_character(g: usize, c: usize) -> (r: Character)
    requires
        g < GUILDS,
        c < MEMBERS,
    ensures
        r@ == large_character(g as nat, c as nat),
{
    let mut name = "Char_".to_owned();
    push_decimal(&mut name, g);
    name.append("_");
    push_decimal(&mut name, c);
    let mut inventory: Vec<Item> = Vec::new();
    let mut i: usize = 0;
    while i < ITEMS
        invariant
            g < GUILDS,
            c < MEMBERS,
            i <= ITEMS,
            inventory@.len() == i,
            forall|j: int|
                0 <= j < i ==> (#[trigger] inventory@[j])@ == large_item(
                    g as nat,
                    c as nat,
                    j as nat,
                ),
        decreases ITEMS - i,
    {
        inventory.push(make_item(g, c, i));
        i = i + 1;
    }
    let r = Character {
        name,
        level: (c + 1) as i32,
        hp: 100,
        mp: 50,
        is_alive: true,
        position: Vec3 { x: 10, y: 20, z: 30 },
        skills: vec![1, 2, 3, 4, 5],
        inventory,
    };
    proof {
        assert(r@.skills =~= large_character(g as nat, c as nat).skills);
        assert(r@.inventory =~= large_character(g as nat, c as nat).inventory);
    }
    r
}

/// Guild `g`.
fn make_guild(g: usize) -> (r: Guild)
    requires
        g < GUILDS,
    ensures
        r@ == large_guild(g as nat),
{
    let mut name = "Guild_".to_owned();
    push_decimal(&mut name, g);
    let mut members: Vec<Character> = Vec::new();
    let mut c: usize = 0;
    while c < MEMBERS
        invariant
            g < GUILDS,
            c <= MEMBERS,
            members@.len() == c,
            forall|j: int|
                0 <= j < c ==> (#[trigger] members@[j])@ == large_character(g as nat, j as nat),
        decreases MEMBERS - c,
    {
        members.push(make_character(g, c));
        c = c + 1;
    }
    let r = Guild { name, description: "A very powerful guild".to_owned(), members };
    proof {
        assert(r@.members =~= large_guild(g as nat).members);
    }
    r
}

/// Builds the large world.
pub fn create_bitpacker_data() -> (w: WorldState)
    ensures
        w@ == large_world(),
{
    let mut guilds: Vec<Guild> = Vec::new();
    let mut g: usize = 0;
    while g < GUILDS
        invariant
            g <= GUILDS,
            guilds@.len() == g,
            forall|j: int| 0 <= j < g ==> (#[trigger] guilds@[j])@ == large_guild(j as nat),
        decreases GUILDS - g,
    {
        guilds.push(make_guild(g));
        g = g + 1;
    }
    let w = WorldState {
        world_id: 1,
        seed: "benchmark_seed".to_owned(),
        guilds,
        loot_table: Vec::new(),
    };
    proof {
        assert(w@.guilds =~= large_world().guilds);
        assert(w@.loot_table =~= large_world().loot_table);
    }
    w
}

} // verus!
