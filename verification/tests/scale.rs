use bitpacker::codec::{decode, decode_with, encode, encode_with};
use bitpacker::endian::Endian;
use bitpacker::workload::{create_bitpacker_data, GUILDS, ITEMS, MEMBERS, NAME_REPEATS};
use bitpacker::world::{Character, Guild, Item, WorldState};
use serde_json::Value;

fn item_value(item: &Item) -> Value {
    let mut m = serde_json::Map::new();
    m.insert("id".to_string(), Value::from(item.id));
    m.insert("name".to_string(), Value::from(item.name.clone()));
    m.insert("value".to_string(), Value::from(item.value));
    m.insert("weight".to_string(), Value::from(item.weight));
    m.insert("rarity".to_string(), Value::from(item.rarity.clone()));
    Value::Object(m)
}

fn character_value(c: &Character) -> Value {
    let mut position = serde_json::Map::new();
    position.insert("x".to_string(), Value::from(c.position.x));
    position.insert("y".to_string(), Value::from(c.position.y));
    position.insert("z".to_string(), Value::from(c.position.z));
    let mut m = serde_json::Map::new();
    m.insert("name".to_string(), Value::from(c.name.clone()));
    m.insert("level".to_string(), Value::from(c.level));
    m.insert("hp".to_string(), Value::from(c.hp));
    m.insert("mp".to_string(), Value::from(c.mp));
    m.insert("is_alive".to_string(), Value::from(c.is_alive));
    m.insert("position".to_string(), Value::Object(position));
    m.insert("skills".to_string(), Value::from(c.skills.clone()));
    m.insert("inventory".to_string(), Value::Array(c.inventory.iter().map(item_value).collect()));
    Value::Object(m)
}

fn guild_value(g: &Guild) -> Value {
    let mut m = serde_json::Map::new();
    m.insert("name".to_string(), Value::from(g.name.clone()));
    m.insert("description".to_string(), Value::from(g.description.clone()));
    m.insert("members".to_string(), Value::Array(g.members.iter().map(character_value).collect()));
    Value::Object(m)
}

fn world_value(w: &WorldState) -> Value {
    let mut m = serde_json::Map::new();
    m.insert("world_id".to_string(), Value::from(w.world_id));
    m.insert("seed".to_string(), Value::from(w.seed.clone()));
    m.insert("guilds".to_string(), Value::Array(w.guilds.iter().map(guild_value).collect()));
    m.insert("loot_table".to_string(), Value::Array(w.loot_table.iter().map(item_value).collect()));
    Value::Object(m)
}

#[test]
fn large_world_has_the_stated_shape() {
    let w = create_bitpacker_data();
    assert_eq!((GUILDS, MEMBERS, ITEMS, NAME_REPEATS), (1000, 20, 10, 50));
    assert_eq!(w.world_id, 1);
    assert_eq!(w.seed, "benchmark_seed");
    assert_eq!(w.guilds.len(), 1000);
    assert!(w.loot_table.is_empty());
    assert!(w.guilds.iter().all(|g| g.members.len() == 20));
    assert!(w.guilds.iter().all(|g| g.members.iter().all(|c| c.inventory.len() == 10)));
    assert!(w.guilds.iter().all(|g| g.description == "A very powerful guild"));
}

#[test]
fn large_world_names_and_numbers() {
    let w = create_bitpacker_data();
    assert_eq!(w.guilds[0].name, "Guild_0");
    assert_eq!(w.guilds[9].name, "Guild_9");
    assert_eq!(w.guilds[10].name, "Guild_10");
    assert_eq!(w.guilds[100].name, "Guild_100");
    assert_eq!(w.guilds[999].name, "Guild_999");
    let c = &w.guilds[407].members[19];
    assert_eq!(c.name, "Char_407_19");
    assert_eq!(c.level, 20);
    assert_eq!((c.hp, c.mp, c.is_alive), (100, 50, true));
    assert_eq!((c.position.x, c.position.y, c.position.z), (10, 20, 30));
    assert_eq!(c.skills, vec![1, 2, 3, 4, 5]);
    assert_eq!(w.guilds[0].members[0].level, 1);
    let item = &c.inventory[7];
    assert_eq!(item.id, 407 * 1000 + 19 * 100 + 7);
    assert_eq!(item.id, 408_907);
    assert_eq!(item.name, format!("{}_407_19_7", "Item".repeat(50)));
    assert_eq!(item.name.len(), 209);
    assert_eq!(item.value, 70);
    assert_eq!(item.weight, 1);
    assert_eq!(item.rarity, "Common");
    assert_eq!(c.inventory[0].rarity, "Rare");
    assert_eq!(c.inventory[5].rarity, "Rare");
    assert_eq!(c.inventory[4].rarity, "Common");
    assert_eq!(c.inventory[0].value, 0);
    assert_eq!(w.guilds[999].members[19].inventory[9].id, 1_000_909);
}

#[test]
fn large_world_agrees_with_formatting() {
    let w = create_bitpacker_data();
    for (g, guild) in w.guilds.iter().enumerate() {
        assert_eq!(guild.name, format!("Guild_{}", g));
        for (c, member) in guild.members.iter().enumerate() {
            assert_eq!(member.name, format!("Char_{}_{}", g, c));
            assert_eq!(member.level, (c + 1) as i32);
            for (i, item) in member.inventory.iter().enumerate() {
                assert_eq!(item.id, (g * 1000 + c * 100 + i) as i32);
                assert_eq!(item.name, "Item".repeat(50) + &format!("_{}_{}_{}", g, c, i));
                assert_eq!(item.value, (i * 10) as i32);
                assert_eq!(item.rarity, if i % 5 == 0 { "Rare" } else { "Common" });
            }
        }
    }
}

#[test]
fn large_world_round_trips() {
    let w = create_bitpacker_data();
    let bytes = encode(&w).unwrap();
    let back: WorldState = decode(&bytes).unwrap();
    assert_eq!(back.guilds.len(), 1000);
    assert!(back == w);
}

#[test]
fn large_world_round_trips_little_endian() {
    let w = create_bitpacker_data();
    let bytes = encode_with(&w, Endian::Little).unwrap();
    let back: WorldState = decode_with(&bytes, Endian::Little).unwrap();
    assert!(back == w);
}

#[test]
fn large_world_size_is_the_sum_of_its_fields() {
    let w = create_bitpacker_data();
    let bytes = encode(&w).unwrap();
    let mut expected = 4 + (4 + 14) + 4 + 4;
    for guild in &w.guilds {
        expected += 4 + guild.name.len() + 4 + 21 + 4;
        for c in &guild.members {
            expected += 4 + c.name.len() + 12 + 1 + 12 + (4 + 20) + 4;
            for item in &c.inventory {
                expected += 4 + 4 + item.name.len() + 4 + 4 + 4 + item.rarity.len();
            }
        }
    }
    assert_eq!(bytes.len(), expected);
}

#[test]
fn large_world_is_smaller_than_json() {
    let w = create_bitpacker_data();
    let ours = encode(&w).unwrap().len();
    let mut json = 0;
    for guild in &w.guilds {
        json += serde_json::to_vec(&guild_value(guild)).unwrap().len() + 1;
    }
    let mut shell = w.clone();
    shell.guilds.clear();
    json += serde_json::to_vec(&world_value(&shell)).unwrap().len() - 1;
    assert!(ours < json);
}

#[test]
fn small_world_json_size_adds_up() {
    let mut w = create_bitpacker_data();
    w.guilds.truncate(3);
    let whole = serde_json::to_vec(&world_value(&w)).unwrap().len();
    let mut parts = 0;
    for guild in &w.guilds {
        parts += serde_json::to_vec(&guild_value(guild)).unwrap().len() + 1;
    }
    let mut shell = w.clone();
    shell.guilds.clear();
    parts += serde_json::to_vec(&world_value(&shell)).unwrap().len() - 1;
    assert_eq!(whole, parts);
}

#[test]
fn large_world_is_smaller_than_message_pack_with_names() {
    let w = create_bitpacker_data();
    let ours = encode(&w).unwrap().len();
    let mut packed = 0;
    for guild in &w.guilds {
        packed += rmp_serde::to_vec(&guild_value(guild)).unwrap().len();
    }
    assert!(ours < packed);
}
