//! The game schema: one game and its players. A second, smaller schema
//! under the same rules, with a list of strings among its fields.

use vstd::prelude::*;
use crate::codec::{Codec, lemma_read_step};
use crate::endian::Endian;
use crate::error::CodecError;
use crate::reader::Reader;
use crate::wire::Wire;
use crate::writer::Writer;

verus! {

/// A player and what they hold.
#[derive(Clone, Debug, Default, PartialEq, Eq)]
pub struct Player {
    pub username: String,
    pub level: i32,
    pub score: i32,
    pub inventory: Vec<String>,
}

/// What a `Player` stands for.
pub struct PlayerModel {
    pub username: Seq<char>,
    pub level: i32,
    pub score: i32,
    pub inventory: Seq<Seq<char>>,
}

/// The fields of a player in declaration order.
pub type PlayerFields = (Seq<char>, (i32, (i32, Seq<Seq<char>>)));

impl PlayerModel {
    /// The fields in declaration order.
    pub open spec fn fields(self) -> PlayerFields {
        (self.username, (self.level, (self.score, self.inventory)))
    }

    /// The value with the given fields.
    pub open spec fn of(f: PlayerFields) -> PlayerModel {
        PlayerModel { username: f.0, level: f.1.0, score: f.1.1.0, inventory: f.1.1.1 }
    }
}

impl View for Player {
    type V = PlayerModel;

    open spec fn view(&self) -> PlayerModel {
        PlayerModel {
            username: self.username@,
            level: self.level,
            score: self.score,
            inventory: self.inventory.model(),
        }
    }
}

impl Wire for PlayerModel {
    open spec fn encodable(self) -> bool {
        self.fields().encodable()
    }

    open spec fn wire(self, order: Endian) -> Seq<u8> {
        self.fields().wire(order)
    }

    open spec fn parse(bytes: Seq<u8>, order: Endian) -> Result<(Self, nat), CodecError> {
        match PlayerFields::parse(bytes, order) {
            Ok((f, n)) => Ok((PlayerModel::of(f), n)),
            Err(e) => Err(e),
        }
    }

    open spec fn min_width() -> nat {
        PlayerFields::min_width()
    }

    proof fn lemma_width(self, order: Endian) {
        self.fields().lemma_width(order);
    }

    proof fn lemma_parse_bounds(bytes: Seq<u8>, order: Endian) {
        PlayerFields::lemma_parse_bounds(bytes, order);
    }

    proof fn lemma_round_trip(self, order: Endian, tail: Seq<u8>) {
        self.fields().lemma_round_trip(order, tail);
    }

    proof fn lemma_parse_extend(bytes: Seq<u8>, order: Endian, tail: Seq<u8>) {
        PlayerFields::lemma_parse_extend(bytes, order, tail);
    }

    proof fn lemma_parse_prefix(bytes: Seq<u8>, order: Endian, k: int) {
        PlayerFields::lemma_parse_prefix(bytes, order, k);
    }
}

impl Player {
    /// Appends the fields in order. When a field is refused, the fields
    /// before it have been written already.
    fn write_fields(&self, writer: &mut Writer) -> (r: Result<(), CodecError>)
        ensures
            final(writer).order() == old(writer).order(),
            self@.encodable() ==> r.is_ok()
                && final(writer)@ == old(writer)@ + self@.wire(old(writer).order()),
            !self@.encodable() ==> r == Err::<(), CodecError>(CodecError::InvalidLength)
                && final(writer)@.len() >= old(writer)@.len()
                && final(writer)@.take(old(writer)@.len() as int) == old(writer)@,
    {
        let ghost order = writer.order();
        self.username.encode_to(writer)?;
        self.level.encode_to(writer)?;
        self.score.encode_to(writer)?;
        self.inventory.encode_to(writer)?;
        assert(writer@ =~= old(writer)@ + self@.wire(order));
        Ok(())
    }

    /// Reads the fields in order. On a fault the reader stays where the
    /// fault was met.
    fn read_fields(reader: &mut Reader<'_>) -> (r: Result<Self, CodecError>)
        ensures
            final(reader)@.bytes == old(reader)@.bytes,
            final(reader)@.order == old(reader)@.order,
            final(reader)@.at >= old(reader)@.at,
            match PlayerModel::parse(old(reader)@.rest(), old(reader)@.order) {
                Ok((v, n)) => (r matches Ok(x) && x@ == v)
                    && final(reader)@ == old(reader)@.forward(n),
                Err(e) => (r matches Err(f) && f == e),
            },
    {
        proof {
            reader.lemma_in_bounds();
            lemma_read_step::<Seq<char>>(reader@);
        }
        let username = String::decode_from(reader)?;
        proof {
            lemma_read_step::<i32>(reader@);
        }
        let level = i32::decode_from(reader)?;
        proof {
            lemma_read_step::<i32>(reader@);
        }
        let score = i32::decode_from(reader)?;
        let inventory = Vec::<String>::decode_from(reader)?;
        Ok(Player { username, level, score, inventory })
    }
}

impl Codec for Player {
    type Model = PlayerModel;

    open spec fn model(&self) -> PlayerModel {
        self@
    }

    fn min_width() -> (w: u32) {
        16
    }

    fn encode_to(&self, writer: &mut Writer) -> (r: Result<(), CodecError>) {
        let mark = writer.len();
        let r = self.write_fields(writer);
        if r.is_err() {
            writer.truncate(mark);
        }
        r
    }

    fn decode_from(reader: &mut Reader<'_>) -> (r: Result<Self, CodecError>) {
        let mark = reader.position();
        let r = Self::read_fields(reader);
        if r.is_err() {
            reader.rewind(mark);
        }
        r
    }
}

/// The root of the schema: one game.
#[derive(Clone, Debug, Default, PartialEq, Eq)]
pub struct GameState {
    pub id: i32,
    pub is_active: bool,
    pub players: Vec<Player>,
}

/// What a `GameState` stands for.
pub struct GameStateModel {
    pub id: i32,
    pub is_active: bool,
    pub players: Seq<PlayerModel>,
}

/// The fields of a game in declaration order.
pub type GameStateFields = (i32, (bool, Seq<PlayerModel>));

impl GameStateModel {
    /// The fields in declaration order.
    pub open spec fn fields(self) -> GameStateFields {
        (self.id, (self.is_active, self.players))
    }

    /// The value with the given fields.
    pub open spec fn of(f: GameStateFields) -> GameStateModel {
        GameStateModel { id: f.0, is_active: f.1.0, players: f.1.1 }
    }
}

impl View for GameState {
    type V = GameStateModel;

    open spec fn view(&self) -> GameStateModel {
        GameStateModel { id: self.id, is_active: self.is_active, players: self.players.model() }
    }
}

impl Wire for GameStateModel {
    open spec fn encodable(self) -> bool {
        self.fields().encodable()
    }

    open spec fn wire(self, order: Endian) -> Seq<u8> {
        self.fields().wire(order)
    }

    open spec fn parse(bytes: Seq<u8>, order: Endian) -> Result<(Self, nat), CodecError> {
        match GameStateFields::parse(bytes, order) {
            Ok((f, n)) => Ok((GameStateModel::of(f), n)),
            Err(e) => Err(e),
        }
    }

    open spec fn min_width() -> nat {
        GameStateFields::min_width()
    }

    proof fn lemma_width(self, order: Endian) {
        self.fields().lemma_width(order);
    }

    proof fn lemma_parse_bounds(bytes: Seq<u8>, order: Endian) {
        GameStateFields::lemma_parse_bounds(bytes, order);
    }

    proof fn lemma_round_trip(self, order: Endian, tail: Seq<u8>) {
        self.fields().lemma_round_trip(order, tail);
    }

    proof fn lemma_parse_extend(bytes: Seq<u8>, order: Endian, tail: Seq<u8>) {
        GameStateFields::lemma_parse_extend(bytes, order, tail);
    }

    proof fn lemma_parse_prefix(bytes: Seq<u8>, order: Endian, k: int) {
        GameStateFields::lemma_parse_prefix(bytes, order, k);
    }
}

impl GameState {
    /// Appends the fields in order. When a field is refused, the fields
    /// before it have been written already.
    fn write_fields(&self, writer: &mut Writer) -> (r: Result<(), CodecError>)
        ensures
            final(writer).order() == old(writer).order(),
            self@.encodable() ==> r.is_ok()
                && final(writer)@ == old(writer)@ + self@.wire(old(writer).order()),
            !self@.encodable() ==> r == Err::<(), CodecError>(CodecError::InvalidLength)
                && final(writer)@.len() >= old(writer)@.len()
                && final(writer)@.take(old(writer)@.len() as int) == old(writer)@,
    {
        let ghost order = writer.order();
        self.id.encode_to(writer)?;
        self.is_active.encode_to(writer)?;
        self.players.encode_to(writer)?;
        assert(writer@ =~= old(writer)@ + self@.wire(order));
        Ok(())
    }

    /// Reads the fields in order. On a fault the reader stays where the
    /// fault was met.
    fn read_fields(reader: &mut Reader<'_>) -> (r: Result<Self, CodecError>)
        ensures
            final(reader)@.bytes == old(reader)@.bytes,
            final(reader)@.order == old(reader)@.order,
            final(reader)@.at >= old(reader)@.at,
            match GameStateModel::parse(old(reader)@.rest(), old(reader)@.order) {
                Ok((v, n)) => (r matches Ok(x) && x@ == v)
                    && final(reader)@ == old(reader)@.forward(n),
                Err(e) => (r matches Err(f) && f == e),
            },
    {
        proof {
            reader.lemma_in_bounds();
            lemma_read_step::<i32>(reader@);
        }
        let id = i32::decode_from(reader)?;
        proof {
            lemma_read_step::<bool>(reader@);
        }
        let is_active = bool::decode_from(reader)?;
        let players = Vec::<Player>::decode_from(reader)?;
        Ok(GameState { id, is_active, players })
    }
}

impl Codec for GameState {
    type Model = GameStateModel;

    open spec fn model(&self) -> GameStateModel {
        self@
    }

    fn min_width() -> (w: u32) {
        9
    }

    fn encode_to(&self, writer: &mut Writer) -> (r: Result<(), CodecError>) {
        let mark = writer.len();
        let r = self.write_fields(writer);
        if r.is_err() {
            writer.truncate(mark);
        }
        r
    }

    fn decode_from(reader: &mut Reader<'_>) -> (r: Result<Self, CodecError>) {
        let mark = reader.position();
        let r = Self::read_fields(reader);
        if r.is_err() {
            reader.rewind(mark);
        }
        r
    }
}


} // verus!
