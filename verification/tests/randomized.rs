use bitpacker::codec::{decode_with, encode_with};
use bitpacker::endian::Endian;
use bitpacker::flat::{from_fb, to_fb};
use bitpacker::player::{GameState, Player};
use bitpacker::proto::from_bp;
use bitpacker::world::{Character, Guild, Item, Vec3, WorldState};

struct Rng(u64);

impl Rng {
    fn next(&mut self) -> u64 {
        self.0 ^= self.0 << 13;
        self.0 ^= self.0 >> 7;
        self.0 ^= self.0 << 17;
        self.0
    }

    fn below(&mut self, n: u64) -> usize {
        (self.next() % n) as usize
    }

    fn number(&mut self) -> i32 {
        match self.below(8) {
            0 => 0,
            1 => -1,
            2 => i32::MIN,
            3 => i32::MAX,
            _ => self.next() as i32,
        }
    }

    fn text(&mut self) -> String {
        let letters = ['a', 'Z', '0', ' ', '\u{0}', '\u{e9}', '\u{20ac}', '\u{1f600}', '\u{7ff}', '\u{ffff}'];
        let len = self.below(12);
        (0..len).map(|_| letters[self.below(letters.len() as u64)]).collect()
    }

    fn item(&mut self) -> Item {
        Item {
            id: self.number(),
            name: self.text(),
            value: self.number(),
            weight: self.number(),
            rarity: self.text(),
        }
    }

    fn character(&mut self) -> Character {
        Character {
            name: self.text(),
            level: self.number(),
            hp: self.number(),
            mp: self.number(),
            is_alive: self.below(2) == 1,
            position: Vec3 { x: self.number(), y: self.number(), z: self.number() },
            skills: (0..self.below(5)).map(|_| self.number()).collect(),
            inventory: (0..self.below(4)).map(|_| self.item()).collect(),
        }
    }

    fn guild(&mut self) -> Guild {
        Guild {
            name: self.text(),
            description: self.text(),
            members: (0..self.below(4)).map(|_| self.character()).collect(),
        }
    }

    fn world(&mut self) -> WorldState {
        WorldState {
            world_id: self.number(),
            seed: self.text(),
            guilds: (0..self.below(4)).map(|_| self.guild()).collect(),
            loot_table: (0..self.below(4)).map(|_| self.item()).collect(),
        }
    }

    fn game(&mut self) -> GameState {
        GameState {
            id: self.number(),
            is_active: self.below(2) == 1,
            players: (0..self.below(5))
                .map(|_| Player {
                    username: self.text(),
                    level: self.number(),
                    score: self.number(),
                    inventory: (0..self.below(4)).map(|_| self.text()).collect(),
                })
                .collect(),
        }
    }
}

#[test]
fn random_worlds_round_trip() {
    let mut rng = Rng(0x9e37_79b9_7f4a_7c15);
    for _ in 0..300 {
        let w = rng.world();
        for order in [Endian::Big, Endian::Little] {
            let bytes = encode_with(&w, order).unwrap();
            assert_eq!(decode_with::<WorldState>(&bytes, order), Ok(w.clone()));
            assert_eq!(encode_with(&w, order).unwrap(), bytes);
        }
    }
}

#[test]
fn random_games_round_trip() {
    let mut rng = Rng(0x1234_5678_9abc_def1);
    for _ in 0..300 {
        let g = rng.game();
        for order in [Endian::Big, Endian::Little] {
            let bytes = encode_with(&g, order).unwrap();
            assert_eq!(decode_with::<GameState>(&bytes, order), Ok(g.clone()));
        }
    }
}

#[test]
fn random_worlds_cut_anywhere_are_refused() {
    let mut rng = Rng(0x0dd_ba11_5eed);
    for _ in 0..40 {
        let w = rng.world();
        for order in [Endian::Big, Endian::Little] {
            let bytes = encode_with(&w, order).unwrap();
            for k in 0..bytes.len() {
                match decode_with::<WorldState>(&bytes[..k], order) {
                    Err(e) => assert!(e.signals_truncation()),
                    Ok(_) => panic!("a buffer cut at {} of {} was decoded", k, bytes.len()),
                }
            }
        }
    }
}

#[test]
fn random_worlds_ignore_what_follows() {
    let mut rng = Rng(0xfeed_f00d);
    for _ in 0..100 {
        let w = rng.world();
        let mut bytes = encode_with(&w, Endian::Little).unwrap();
        for _ in 0..rng.below(9) {
            bytes.push(rng.next() as u8);
        }
        assert_eq!(decode_with::<WorldState>(&bytes, Endian::Little), Ok(w));
    }
}

#[test]
fn random_bytes_never_panic() {
    let mut rng = Rng(0xabad_1dea);
    for _ in 0..2000 {
        let len = rng.below(64);
        let bytes: Vec<u8> = (0..len).map(|_| (rng.next() >> 24) as u8).collect();
        for order in [Endian::Big, Endian::Little] {
            if let Ok(w) = decode_with::<WorldState>(&bytes, order) {
                let again = encode_with(&w, order).unwrap();
                assert!(again.len() <= bytes.len());
                assert_eq!(decode_with::<WorldState>(&again, order), Ok(w));
            }
            let _ = decode_with::<GameState>(&bytes, order);
            let _ = decode_with::<Vec<String>>(&bytes, order);
        }
    }
}

#[test]
fn random_small_buffers_decode_and_encode_to_the_same_width() {
    let mut rng = Rng(0x5eed_cafe);
    let mut decoded = 0;
    for _ in 0..20_000 {
        let mut bytes = vec![0u8; 9 + rng.below(4)];
        bytes[3] = rng.below(3) as u8;
        bytes[4] = rng.below(256) as u8;
        bytes[8] = rng.below(2) as u8;
        if let Ok(g) = decode_with::<GameState>(&bytes, Endian::Big) {
            decoded += 1;
            assert_eq!(encode_with(&g, Endian::Big).unwrap().len(), 9);
        }
    }
    assert!(decoded > 0);
}

#[test]
fn random_worlds_through_tables_and_messages() {
    let mut rng = Rng(0x7ab1e5);
    for _ in 0..200 {
        let w = rng.world();
        assert_eq!(from_fb(&to_fb(&w)), w);
        let m = from_bp(&w);
        assert_eq!(m.world_id, w.world_id);
        assert_eq!(m.seed, w.seed);
        assert!(m.loot_table.is_empty());
        assert_eq!(m.guilds.len(), w.guilds.len());
        for (mg, g) in m.guilds.iter().zip(&w.guilds) {
            assert_eq!(mg.name, g.name);
            assert_eq!(mg.description, g.description);
            assert_eq!(mg.members.len(), g.members.len());
            for (mc, c) in mg.members.iter().zip(&g.members) {
                assert_eq!(mc.name, c.name);
                assert_eq!((mc.level, mc.hp, mc.mp, mc.is_alive), (c.level, c.hp, c.mp, c.is_alive));
                assert_eq!(mc.position, Some(c.position));
                assert_eq!(mc.skills, c.skills);
                assert_eq!(mc.inventory, c.inventory);
            }
        }
    }
}
