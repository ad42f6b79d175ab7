//! The world schema: a world of guilds, their characters, and the items they
//! carry.

use vstd::prelude::*;
use crate::codec::{Codec, lemma_read_step};
use crate::endian::Endian;
use crate::error::CodecError;
use crate::reader::Reader;
use crate::wire::Wire;
use crate::writer::Writer;

verus! {

/// A point in space. A fixed struct: always twelve bytes, with no prefix.
#[derive(Clone, Copy, Debug, Default, PartialEq, Eq)]
pub struct Vec3 {
    pub x: i32,
    pub y: i32,
    pub z: i32,
}

/// The fields of a `Vec3` in declaration order.
pub type Vec3Fields = (i32, (i32, i32));

impl Vec3 {
    /// The fields in declaration order.
    pub open spec fn fields(self) -> Vec3Fields {
        (self.x, (self.y, self.z))
    }

    /// The value with the given fields.
    pub open spec fn of(f: Vec3Fields) -> Vec3 {
        Vec3 { x: f.0, y: f.1.0, z: f.1.1 }
    }
}

impl Wire for Vec3 {
    open spec fn encodable(self) -> bool {
        self.fields().encodable()
    }

    open spec fn wire(self, order: Endian) -> Seq<u8> {
        self.fields().wire(order)
    }

    open spec fn parse(bytes: Seq<u8>, order: Endian) -> Result<(Self, nat), CodecError> {
        match Vec3Fields::parse(bytes, order) {
            Ok((f, n)) => Ok((Vec3::of(f), n)),
            Err(e) => Err(e),
        }
    }

    open spec fn min_width() -> nat {
        Vec3Fields::min_width()
    }

    proof fn lemma_width(self, order: Endian) {
        self.fields().lemma_width(order);
    }

    proof fn lemma_parse_bounds(bytes: Seq<u8>, order: Endian) {
        Vec3Fields::lemma_parse_bounds(bytes, order);
    }

    proof fn lemma_round_trip(self, order: Endian, tail: Seq<u8>) {
        self.fields().lemma_round_trip(order, tail);
    }

    proof fn lemma_parse_extend(bytes: Seq<u8>, order: Endian, tail: Seq<u8>) {
        Vec3Fields::lemma_parse_extend(bytes, order, tail);
    }

    proof fn lemma_parse_prefix(bytes: Seq<u8>, order: Endian, k: int) {
        Vec3Fields::lemma_parse_prefix(bytes, order, k);
    }
}

impl Vec3 {
    /// Reads the fields in order. On a fault the reader stays where the
    /// fault was met.
    fn read_fields(reader: &mut Reader<'_>) -> (r: Result<Self, CodecError>)
        ensures
            final(reader)@.bytes == old(reader)@.bytes,
            final(reader)@.order == old(reader)@.order,
            final(reader)@.at >= old(reader)@.at,
            match Vec3::parse(old(reader)@.rest(), old(reader)@.order) {
                Ok((v, n)) => r == Ok::<Vec3, CodecError>(v)
                    && final(reader)@ == old(reader)@.forward(n),
                Err(e) => r == Err::<Vec3, CodecError>(e),
            },
    {
        proof {
            reader.lemma_in_bounds();
            lemma_read_step::<i32>(reader@);
        }
        let x = i32::decode_from(reader)?;
        proof {
            lemma_read_step::<i32>(reader@);
        }
        let y = i32::decode_from(reader)?;
        let z = i32::decode_from(reader)?;
        Ok(Vec3 { x, y, z })
    }
}

impl Codec for Vec3 {
    type Model = Vec3;

    open spec fn model(&self) -> Vec3 {
        *self
    }

    fn min_width() -> (w: u32) {
        12
    }

    fn encode_to(&self, writer: &mut Writer) -> (r: Result<(), CodecError>) {
        writer.write_i32(self.x);
        writer.write_i32(self.y);
        writer.write_i32(self.z);
        assert(writer@ =~= old(writer)@ + self.wire(old(writer).order()));
        Ok(())
    }

    fn decode_from(reader: &mut Reader<'_>) -> (r: Result<Self, CodecError>) {
        let mark = reader.position();
        let r = Self::read_fields(reader);
        if r.is_err() {
            reader.rewind(mark);
        }
        r
    }
}

/// A thing that can be carried or found.
#[derive(Clone, Debug, Default, PartialEq, Eq)]
pub struct Item {
    pub id: i32,
    pub name: String,
    pub value: i32,
    pub weight: i32,
    pub rarity: String,
}

/// What an `Item` stands for.
pub struct ItemModel {
    pub id: i32,
    pub name: Seq<char>,
    pub value: i32,
    pub weight: i32,
    pub rarity: Seq<char>,
}

/// The fields of an item in declaration order.
pub type ItemFields = (i32, (Seq<char>, (i32, (i32, Seq<char>))));

impl ItemModel {
    /// The fields in declaration order.
    pub open spec fn fields(self) -> ItemFields {
        (self.id, (self.name, (self.value, (self.weight, self.rarity))))
    }

    /// The value with the given fields.
    pub open spec fn of(f: ItemFields) -> ItemModel {
        ItemModel { id: f.0, name: f.1.0, value: f.1.1.0, weight: f.1.1.1.0, rarity: f.1.1.1.1 }
    }
}

impl View for Item {
    type V = ItemModel;

    open spec fn view(&self) -> ItemModel {
        ItemModel {
            id: self.id,
            name: self.name@,
            value: self.value,
            weight: self.weight,
            rarity: self.rarity@,
        }
    }
}

impl Wire for ItemModel {
    open spec fn encodable(self) -> bool {
        self.fields().encodable()
    }

    open spec fn wire(self, order: Endian) -> Seq<u8> {
        self.fields().wire(order)
    }

    open spec fn parse(bytes: Seq<u8>, order: Endian) -> Result<(Self, nat), CodecError> {
        match ItemFields::parse(bytes, order) {
            Ok((f, n)) => Ok((ItemModel::of(f), n)),
            Err(e) => Err(e),
        }
    }

    open spec fn min_width() -> nat {
        ItemFields::min_width()
    }

    proof fn lemma_width(self, order: Endian) {
        self.fields().lemma_width(order);
    }

    proof fn lemma_parse_bounds(bytes: Seq<u8>, order: Endian) {
        ItemFields::lemma_parse_bounds(bytes, order);
    }

    proof fn lemma_round_trip(self, order: Endian, tail: Seq<u8>) {
        self.fields().lemma_round_trip(order, tail);
    }

    proof fn lemma_parse_extend(bytes: Seq<u8>, order: Endian, tail: Seq<u8>) {
        ItemFields::lemma_parse_extend(bytes, order, tail);
    }

    proof fn lemma_parse_prefix(bytes: Seq<u8>, order: Endian, k: int) {
        ItemFields::lemma_parse_prefix(bytes, order, k);
    }
}

impl Item {
    /// Appends the fields in order. When a field is refused, the fields
    /// before it have been written already.
    fn write_fields(&self, writer: &mut Writer) -> (r: Result<(), CodecError>)
        ensures
            final(writer).order() == old(writer).order(),
            self@.encodable() ==> r.is_ok()
                && final(writer)@ == old(writer)@ + self@.wire(old(writer).order()),
            !self@.encodable() ==> r == Err::<(), CodecError>(CodecError::InvalidLength)
                && final(writer)@.len() >= old(writer)@.len()
                && final(writer)@.take(old(writer)@.len() as int) == old(writer)@,
    {
        let ghost order = writer.order();
        self.id.encode_to(writer)?;
        self.name.encode_to(writer)?;
        self.value.encode_to(writer)?;
        self.weight.encode_to(writer)?;
        self.rarity.encode_to(writer)?;
        assert(writer@ =~= old(writer)@ + self@.wire(order));
        Ok(())
    }

    /// Reads the fields in order. On a fault the reader stays where the
    /// fault was met.
    fn read_fields(reader: &mut Reader<'_>) -> (r: Result<Self, CodecError>)
        ensures
            final(reader)@.bytes == old(reader)@.bytes,
            final(reader)@.order == old(reader)@.order,
            final(reader)@.at >= old(reader)@.at,
            match ItemModel::parse(old(reader)@.rest(), old(reader)@.order) {
                Ok((v, n)) => (r matches Ok(x) && x@ == v)
                    && final(reader)@ == old(reader)@.forward(n),
                Err(e) => (r matches Err(f) && f == e),
            },
    {
        proof {
            reader.lemma_in_bounds();
            lemma_read_step::<i32>(reader@);
        }
        let id = i32::decode_from(reader)?;
        proof {
            lemma_read_step::<Seq<char>>(reader@);
        }
        let name = String::decode_from(reader)?;
        proof {
            lemma_read_step::<i32>(reader@);
        }
        let value = i32::decode_from(reader)?;
        proof {
            lemma_read_step::<i32>(reader@);
        }
        let weight = i32::decode_from(reader)?;
        let rarity = String::decode_from(reader)?;
        Ok(Item { id, name, value, weight, rarity })
    }
}

impl Codec for Item {
    type Model = ItemModel;

    open spec fn model(&self) -> ItemModel {
        self@
    }

    fn min_width() -> (w: u32) {
        20
    }

    fn encode_to(&self, writer: &mut Writer) -> (r: Result<(), CodecError>) {
        let mark = writer.len();
        let r = self.write_fields(writer);
        if r.is_err() {
            writer.truncate(mark);
        }
        r
    }

    fn decode_from(reader: &mut Reader<'_>) -> (r: Result<Self, CodecError>) {
        let mark = reader.position();
        let r = Self::read_fields(reader);
        if r.is_err() {
            reader.rewind(mark);
        }
        r
    }
}

/// A member of a guild.
#[derive(Clone, Debug, Default, PartialEq, Eq)]
pub struct Character {
    pub name: String,
    pub level: i32,
    pub hp: i32,
    pub mp: i32,
    pub is_alive: bool,
    pub position: Vec3,
    pub skills: Vec<i32>,
    pub inventory: Vec<Item>,
}

/// What a `Character` stands for.
pub struct CharacterModel {
    pub name: Seq<char>,
    pub level: i32,
    pub hp: i32,
    pub mp: i32,
    pub is_alive: bool,
    pub position: Vec3,
    pub skills: Seq<i32>,
    pub inventory: Seq<ItemModel>,
}

/// The fields of a character in declaration order.
pub type CharacterFields = (
    Seq<char>,
    (i32, (i32, (i32, (bool, (Vec3, (Seq<i32>, Seq<ItemModel>)))))),
);

impl CharacterModel {
    /// The fields in declaration order.
    pub open spec fn fields(self) -> CharacterFields {
        let rest = (self.is_alive, (self.position, (self.skills, self.inventory)));
        (self.name, (self.level, (self.hp, (self.mp, rest))))
    }

    /// The value with the given fields.
    pub open spec fn of(f: CharacterFields) -> CharacterModel {
        CharacterModel {
            name: f.0,
            level: f.1.0,
            hp: f.1.1.0,
            mp: f.1.1.1.0,
            is_alive: f.1.1.1.1.0,
            position: f.1.1.1.1.1.0,
            skills: f.1.1.1.1.1.1.0,
            inventory: f.1.1.1.1.1.1.1,
        }
    }
}

impl View for Character {
    type V = CharacterModel;

    open spec fn view(&self) -> CharacterModel {
        CharacterModel {
            name: self.name@,
            level: self.level,
            hp: self.hp,
            mp: self.mp,
            is_alive: self.is_alive,
            position: self.position,
            skills: self.skills.model(),
            inventory: self.inventory.model(),
        }
    }
}

impl Wire for CharacterModel {
    open spec fn encodable(self) -> bool {
        self.fields().encodable()
    }

    open spec fn wire(self, order: Endian) -> Seq<u8> {
        self.fields().wire(order)
    }

    open spec fn parse(bytes: Seq<u8>, order: Endian) -> Result<(Self, nat), CodecError> {
        match CharacterFields::parse(bytes, order) {
            Ok((f, n)) => Ok((CharacterModel::of(f), n)),
            Err(e) => Err(e),
        }
    }

    open spec fn min_width() -> nat {
        CharacterFields::min_width()
    }

    proof fn lemma_width(self, order: Endian) {
        self.fields().lemma_width(order);
    }

    proof fn lemma_parse_bounds(bytes: Seq<u8>, order: Endian) {
        CharacterFields::lemma_parse_bounds(bytes, order);
    }

    proof fn lemma_round_trip(self, order: Endian, tail: Seq<u8>) {
        self.fields().lemma_round_trip(order, tail);
    }

    proof fn lemma_parse_extend(bytes: Seq<u8>, order: Endian, tail: Seq<u8>) {
        CharacterFields::lemma_parse_extend(bytes, order, tail);
    }

    proof fn lemma_parse_prefix(bytes: Seq<u8>, order: Endian, k: int) {
        CharacterFields::lemma_parse_prefix(bytes, order, k);
    }
}

impl Character {
    /// Appends the fields in order. When a field is refused, the fields
    /// before it have been written already.
    fn write_fields(&self, writer: &mut Writer) -> (r: Result<(), CodecError>)
        ensures
            final(writer).order() == old(writer).order(),
            self@.encodable() ==> r.is_ok()
                && final(writer)@ == old(writer)@ + self@.wire(old(writer).order()),
            !self@.encodable() ==> r == Err::<(), CodecError>(CodecError::InvalidLength)
                && final(writer)@.len() >= old(writer)@.len()
                && final(writer)@.take(old(writer)@.len() as int) == old(writer)@,
    {
        let ghost order = writer.order();
        self.name.encode_to(writer)?;
        self.level.encode_to(writer)?;
        self.hp.encode_to(writer)?;
        self.mp.encode_to(writer)?;
        self.is_alive.encode_to(writer)?;
        self.position.encode_to(writer)?;
        self.skills.encode_to(writer)?;
        self.inventory.encode_to(writer)?;
        assert(writer@ =~= old(writer)@ + self@.wire(order));
        Ok(())
    }

    /// Reads the fields in order. On a fault the reader stays where the
    /// fault was met.
    fn read_fields(reader: &mut Reader<'_>) -> (r: Result<Self, CodecError>)
        ensures
            final(reader)@.bytes == old(reader)@.bytes,
            final(reader)@.order == old(reader)@.order,
            final(reader)@.at >= old(reader)@.at,
            match CharacterModel::parse(old(reader)@.rest(), old(reader)@.order) {
                Ok((v, n)) => (r matches Ok(x) && x@ == v)
                    && final(reader)@ == old(reader)@.forward(n),
                Err(e) => (r matches Err(f) && f == e),
            },
    {
        proof {
            reader.lemma_in_bounds();
            lemma_read_step::<Seq<char>>(reader@);
        }
        let name = String::decode_from(reader)?;
        proof {
            lemma_read_step::<i32>(reader@);
        }
        let level = i32::decode_from(reader)?;
        proof {
            lemma_read_step::<i32>(reader@);
        }
        let hp = i32::decode_from(reader)?;
        proof {
            lemma_read_step::<i32>(reader@);
        }
        let mp = i32::decode_from(reader)?;
        proof {
            lemma_read_step::<bool>(reader@);
        }
        let is_alive = bool::decode_from(reader)?;
        proof {
            lemma_read_step::<Vec3>(reader@);
        }
        let position = Vec3::decode_from(reader)?;
        proof {
            lemma_read_step::<Seq<i32>>(reader@);
        }
        let skills = Vec::<i32>::decode_from(reader)?;
        let inventory = Vec::<Item>::decode_from(reader)?;
        Ok(Character { name, level, hp, mp, is_alive, position, skills, inventory })
    }
}

impl Codec for Character {
    type Model = CharacterModel;

    open spec fn model(&self) -> CharacterModel {
        self@
    }

    fn min_width() -> (w: u32) {
        37
    }

    fn encode_to(&self, writer: &mut Writer) -> (r: Result<(), CodecError>) {
        let mark = writer.len();
        let r = self.write_fields(writer);
        if r.is_err() {
            writer.truncate(mark);
        }
        r
    }

    fn decode_from(reader: &mut Reader<'_>) -> (r: Result<Self, CodecError>) {
        let mark = reader.position();
        let r = Self::read_fields(reader);
        if r.is_err() {
            reader.rewind(mark);
        }
        r
    }
}

/// A named band of characters.
#[derive(Clone, Debug, Default, PartialEq, Eq)]
pub struct Guild {
    pub name: String,
    pub description: String,
    pub members: Vec<Character>,
}

/// What a `Guild` stands for.
pub struct GuildModel {
    pub name: Seq<char>,
    pub description: Seq<char>,
    pub members: Seq<CharacterModel>,
}

/// The fields of a guild in declaration order.
pub type GuildFields = (Seq<char>, (Seq<char>, Seq<CharacterModel>));

impl GuildModel {
    /// The fields in declaration order.
    pub open spec fn fields(self) -> GuildFields {
        (self.name, (self.description, self.members))
    }

    /// The value with the given fields.
    pub open spec fn of(f: GuildFields) -> GuildModel {
        GuildModel { name: f.0, description: f.1.0, members: f.1.1 }
    }
}

impl View for Guild {
    type V = GuildModel;

    open spec fn view(&self) -> GuildModel {
        GuildModel {
            name: self.name@,
            description: self.description@,
            members: self.members.model(),
        }
    }
}

impl Wire for GuildModel {
    open spec fn encodable(self) -> bool {
        self.fields().encodable()
    }

    open spec fn wire(self, order: Endian) -> Seq<u8> {
        self.fields().wire(order)
    }

    open spec fn parse(bytes: Seq<u8>, order: Endian) -> Result<(Self, nat), CodecError> {
        match GuildFields::parse(bytes, order) {
            Ok((f, n)) => Ok((GuildModel::of(f), n)),
            Err(e) => Err(e),
        }
    }

    open spec fn min_width() -> nat {
        GuildFields::min_width()
    }

    proof fn lemma_width(self, order: Endian) {
        self.fields().lemma_width(order);
    }

    proof fn lemma_parse_bounds(bytes: Seq<u8>, order: Endian) {
        GuildFields::lemma_parse_bounds(bytes, order);
    }

    proof fn lemma_round_trip(self, order: Endian, tail: Seq<u8>) {
        self.fields().lemma_round_trip(order, tail);
    }

    proof fn lemma_parse_extend(bytes: Seq<u8>, order: Endian, tail: Seq<u8>) {
        GuildFields::lemma_parse_extend(bytes, order, tail);
    }

    proof fn lemma_parse_prefix(bytes: Seq<u8>, order: Endian, k: int) {
        GuildFields::lemma_parse_prefix(bytes, order, k);
    }
}

impl Guild {
    /// Appends the fields in order. When a field is refused, the fields
    /// before it have been written already.
    fn write_fields(&self, writer: &mut Writer) -> (r: Result<(), CodecError>)
        ensures
            final(writer).order() == old(writer).order(),
            self@.encodable() ==> r.is_ok()
                && final(writer)@ == old(writer)@ + self@.wire(old(writer).order()),
            !self@.encodable() ==> r == Err::<(), CodecError>(CodecError::InvalidLength)
                && final(writer)@.len() >= old(writer)@.len()
                && final(writer)@.take(old(writer)@.len() as int) == old(writer)@,
    {
        let ghost order = writer.order();
        self.name.encode_to(writer)?;
        self.description.encode_to(writer)?;
        self.members.encode_to(writer)?;
        assert(writer@ =~= old(writer)@ + self@.wire(order));
        Ok(())
    }

    /// Reads the fields in order. On a fault the reader stays where the
    /// fault was met.
    fn read_fields(reader: &mut Reader<'_>) -> (r: Result<Self, CodecError>)
        ensures
            final(reader)@.bytes == old(reader)@.bytes,
            final(reader)@.order == old(reader)@.order,
            final(reader)@.at >= old(reader)@.at,
            match GuildModel::parse(old(reader)@.rest(), old(reader)@.order) {
                Ok((v, n)) => (r matches Ok(x) && x@ == v)
                    && final(reader)@ == old(reader)@.forward(n),
                Err(e) => (r matches Err(f) && f == e),
            },
    {
        proof {
            reader.lemma_in_bounds();
            lemma_read_step::<Seq<char>>(reader@);
        }
        let name = String::decode_from(reader)?;
        proof {
            lemma_read_step::<Seq<char>>(reader@);
        }
        let description = String::decode_from(reader)?;
        let members = Vec::<Character>::decode_from(reader)?;
        Ok(Guild { name, description, members })
    }
}

impl Codec for Guild {
    type Model = GuildModel;

    open spec fn model(&self) -> GuildModel {
        self@
    }

    fn min_width() -> (w: u32) {
        12
    }

    fn encode_to(&self, writer: &mut Writer) -> (r: Result<(), CodecError>) {
        let mark = writer.len();
        let r = self.write_fields(writer);
        if r.is_err() {
            writer.truncate(mark);
        }
        r
    }

    fn decode_from(reader: &mut Reader<'_>) -> (r: Result<Self, CodecError>) {
        let mark = reader.position();
        let r = Self::read_fields(reader);
        if r.is_err() {
            reader.rewind(mark);
        }
        r
    }
}

/// The root of the schema: a whole world.
#[derive(Clone, Debug, Default, PartialEq, Eq)]
pub struct WorldState {
    pub world_id: i32,
    pub seed: String,
    pub guilds: Vec<Guild>,
    pub loot_table: Vec<Item>,
}

/// What a `WorldState` stands for.
pub struct WorldStateModel {
    pub world_id: i32,
    pub seed: Seq<char>,
    pub guilds: Seq<GuildModel>,
    pub loot_table: Seq<ItemModel>,
}

/// The fields of a world in declaration order.
pub type WorldStateFields = (i32, (Seq<char>, (Seq<GuildModel>, Seq<ItemModel>)));

impl WorldStateModel {
    /// The fields in declaration order.
    pub open spec fn fields(self) -> WorldStateFields {
        (self.world_id, (self.seed, (self.guilds, self.loot_table)))
    }

    /// The value with the given fields.
    pub open spec fn of(f: WorldStateFields) -> WorldStateModel {
        WorldStateModel { world_id: f.0, seed: f.1.0, guilds: f.1.1.0, loot_table: f.1.1.1 }
    }
}

impl View for WorldState {
    type V = WorldStateModel;

    open spec fn view(&self) -> WorldStateModel {
        WorldStateModel {
            world_id: self.world_id,
            seed: self.seed@,
            guilds: self.guilds.model(),
            loot_table: self.loot_table.model(),
        }
    }
}

impl Wire for WorldStateModel {
    open spec fn encodable(self) -> bool {
        self.fields().encodable()
    }

    open spec fn wire(self, order: Endian) -> Seq<u8> {
        self.fields().wire(order)
    }

    open spec fn parse(bytes: Seq<u8>, order: Endian) -> Result<(Self, nat), CodecError> {
        match WorldStateFields::parse(bytes, order) {
            Ok((f, n)) => Ok((WorldStateModel::of(f), n)),
            Err(e) => Err(e),
        }
    }

    open spec fn min_width() -> nat {
        WorldStateFields::min_width()
    }

    proof fn lemma_width(self, order: Endian) {
        self.fields().lemma_width(order);
    }

    proof fn lemma_parse_bounds(bytes: Seq<u8>, order: Endian) {
        WorldStateFields::lemma_parse_bounds(bytes, order);
    }

    proof fn lemma_round_trip(self, order: Endian, tail: Seq<u8>) {
        self.fields().lemma_round_trip(order, tail);
    }

    proof fn lemma_parse_extend(bytes: Seq<u8>, order: Endian, tail: Seq<u8>) {
        WorldStateFields::lemma_parse_extend(bytes, order, tail);
    }

    proof fn lemma_parse_prefix(bytes: Seq<u8>, order: Endian, k: int) {
        WorldStateFields::lemma_parse_prefix(bytes, order, k);
    }
}

impl WorldState {
    /// Appends the fields in order. When a field is refused, the fields
    /// before it have been written already.
    fn write_fields(&self, writer: &mut Writer) -> (r: Result<(), CodecError>)
        ensures
            final(writer).order() == old(writer).order(),
            self@.encodable() ==> r.is_ok()
                && final(writer)@ == old(writer)@ + self@.wire(old(writer).order()),
            !self@.encodable() ==> r == Err::<(), CodecError>(CodecError::InvalidLength)
                && final(writer)@.len() >= old(writer)@.len()
                && final(writer)@.take(old(writer)@.len() as int) == old(writer)@,
    {
        let ghost order = writer.order();
        self.world_id.encode_to(writer)?;
        self.seed.encode_to(writer)?;
        self.guilds.encode_to(writer)?;
        self.loot_table.encode_to(writer)?;
        assert(writer@ =~= old(writer)@ + self@.wire(order));
        Ok(())
    }

    /// Reads the fields in order. On a fault the reader stays where the
    /// fault was met.
    fn read_fields(reader: &mut Reader<'_>) -> (r: Result<Self, CodecError>)
        ensures
            final(reader)@.bytes == old(reader)@.bytes,
            final(reader)@.order == old(reader)@.order,
            final(reader)@.at >= old(reader)@.at,
            match WorldStateModel::parse(old(reader)@.rest(), old(reader)@.order) {
                Ok((v, n)) => (r matches Ok(x) && x@ == v)
                    && final(reader)@ == old(reader)@.forward(n),
                Err(e) => (r matches Err(f) && f == e),
            },
    {
        proof {
            reader.lemma_in_bounds();
            lemma_read_step::<i32>(reader@);
        }
        let world_id = i32::decode_from(reader)?;
        proof {
            lemma_read_step::<Seq<char>>(reader@);
        }
        let seed = String::decode_from(reader)?;
        proof {
            lemma_read_step::<Seq<GuildModel>>(reader@);
        }
        let guilds = Vec::<Guild>::decode_from(reader)?;
        let loot_table = Vec::<Item>::decode_from(reader)?;
        Ok(WorldState { world_id, seed, guilds, loot_table })
    }
}

impl Codec for WorldState {
    type Model = WorldStateModel;

    open spec fn model(&self) -> WorldStateModel {
        self@
    }

    fn min_width() -> (w: u32) {
        16
    }

    fn encode_to(&self, writer: &mut Writer) -> (r: Result<(), CodecError>) {
        let mark = writer.len();
        let r = self.write_fields(writer);
        if r.is_err() {
            writer.truncate(mark);
        }
        r
    }

    fn decode_from(reader: &mut Reader<'_>) -> (r: Result<Self, CodecError>) {
        let mark = reader.position();
        let r = Self::read_fields(reader);
        if r.is_err() {
            reader.rewind(mark);
        }
        r
    }
}


} // verus!
