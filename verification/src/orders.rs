//! Order records: a tag byte, then a greeting, nothing, or a name with flags and
//! the fields that the flags announce.

use vstd::prelude::*;
use crate::endian::{le_i16, le_i32, le_u32};
use crate::error::DecodeError;
use crate::reader::{fits, string_end, string_fits, string_start, ReplayReader};
use crate::strings::{lossy_text, text_of};
use crate::varint::lemma_varint_len_bounds;

verus! {

/// The kinds of order that a tag byte can name.
#[derive(Clone, Copy, Debug, PartialEq, Eq, Structural)]
pub enum OrderType {
    SyncHash,
    Disconnect,
    Handshake,
    Fields,
}

impl OrderType {
    /// The tag byte of the kind.
    pub open spec fn tag(self) -> u8 {
        match self {
            OrderType::SyncHash => 0x65,
            OrderType::Disconnect => 0xBF,
            OrderType::Handshake => 0xFE,
            OrderType::Fields => 0xFF,
        }
    }

    /// The kind that `byte` names, if it names one.
    pub open spec fn of(byte: u8) -> Option<OrderType> {
        if byte == 0x65 {
            Some(OrderType::SyncHash)
        } else if byte == 0xBF {
            Some(OrderType::Disconnect)
        } else if byte == 0xFE {
            Some(OrderType::Handshake)
        } else if byte == 0xFF {
            Some(OrderType::Fields)
        } else {
            None
        }
    }

    /// The tag byte of the kind.
    pub fn to_byte(self) -> (byte: u8)
        ensures
            byte == self.tag(),
    {
        match self {
            OrderType::SyncHash => 0x65,
            OrderType::Disconnect => 0xBF,
            OrderType::Handshake => 0xFE,
            OrderType::Fields => 0xFF,
        }
    }

    /// The kind that `byte` names, if it names one.
    pub fn from_byte(byte: u8) -> (kind: Option<OrderType>)
        ensures
            kind == OrderType::of(byte),
    {
        if byte == 0x65 {
            Some(OrderType::SyncHash)
        } else if byte == 0xBF {
            Some(OrderType::Disconnect)
        } else if byte == 0xFE {
            Some(OrderType::Handshake)
        } else if byte == 0xFF {
            Some(OrderType::Fields)
        } else {
            None
        }
    }
}

/// The kinds of target that a tag byte can name.
#[derive(Clone, Copy, Debug, PartialEq, Eq, Structural)]
pub enum TargetType {
    Invalid,
    Actor,
    Terrain,
    FrozenActor,
}

impl TargetType {
    /// The kind that `byte` names, if it names one.
    pub open spec fn of(byte: u8) -> Option<TargetType> {
        if byte == 0 {
            Some(TargetType::Invalid)
        } else if byte == 1 {
            Some(TargetType::Actor)
        } else if byte == 2 {
            Some(TargetType::Terrain)
        } else if byte == 3 {
            Some(TargetType::FrozenActor)
        } else {
            None
        }
    }

    /// The kind that `byte` names, if it names one.
    pub fn from_byte(byte: u8) -> (kind: Option<TargetType>)
        ensures
            kind == TargetType::of(byte),
    {
        if byte == 0 {
            Some(TargetType::Invalid)
        } else if byte == 1 {
            Some(TargetType::Actor)
        } else if byte == 2 {
            Some(TargetType::Terrain)
        } else if byte == 3 {
            Some(TargetType::FrozenActor)
        } else {
            None
        }
    }
}

/// The bits of the flags of an order. All but `Queued` and `TargetIsCell` announce
/// a field of the order; `Grouped` exists only in flags of two bytes.
#[derive(Clone, Copy, Debug, PartialEq, Eq, Structural)]
pub enum OrderFields {
    Target,
    ExtraActors,
    TargetString,
    Queued,
    ExtraLocation,
    ExtraData,
    TargetIsCell,
    Subject,
    Grouped,
}

impl OrderFields {
    /// The bit of the field in the flags.
    pub open spec fn mask(self) -> i16 {
        match self {
            OrderFields::Target => 0x01,
            OrderFields::ExtraActors => 0x02,
            OrderFields::TargetString => 0x04,
            OrderFields::Queued => 0x08,
            OrderFields::ExtraLocation => 0x10,
            OrderFields::ExtraData => 0x20,
            OrderFields::TargetIsCell => 0x40,
            OrderFields::Subject => 0x80,
            OrderFields::Grouped => 0x100,
        }
    }

    /// The bit of the field in the flags.
    pub fn bit(self) -> (bit: i16)
        ensures
            bit == self.mask(),
    {
        match self {
            OrderFields::Target => 0x01,
            OrderFields::ExtraActors => 0x02,
            OrderFields::TargetString => 0x04,
            OrderFields::Queued => 0x08,
            OrderFields::ExtraLocation => 0x10,
            OrderFields::ExtraData => 0x20,
            OrderFields::TargetIsCell => 0x40,
            OrderFields::Subject => 0x80,
            OrderFields::Grouped => 0x100,
        }
    }
}

/// Whether the bit of `field` is set in `flags`.
pub open spec fn has_field(flags: i16, field: OrderFields) -> bool {
    flags & field.mask() != 0
}

/// Whether the bit of `field` is set in `flags`.
pub fn is_set(flags: i16, field: OrderFields) -> (set: bool)
    ensures
        set == has_field(flags, field),
{
    flags & field.bit() != 0
}

/// What an order is aimed at.
#[derive(Clone, Copy, Debug, PartialEq, Eq, Structural)]
pub enum Target {
    Invalid,
    Actor { actor_id: u32 },
    FrozenActor { player_actor_id: u32, frozen_actor_id: u32 },
    /// A cell of the map, unpacked from one value of four bytes, and the index
    /// of the place inside the cell.
    Cell { world_x: i16, world_y: i16, world_z: u8, subcell: u8 },
    /// A place in the world, as its three coordinates were written.
    Position { x: u32, y: u32, z: u32 },
}

/// The cell that the packed value `cell` stands for: its twelve highest bits are
/// the first coordinate, the next twelve the second, the eight lowest the third.
pub open spec fn cell_of(cell: u32, subcell: u8) -> Target {
    Target::Cell {
        world_x: (cell / 0x10_0000) as i16,
        world_y: (cell / 0x100 % 0x1000) as i16,
        world_z: (cell % 0x100) as u8,
        subcell: subcell,
    }
}

/// Unpacks a cell.
pub fn decode_cell(cell: u32, subcell: u8) -> (target: Target)
    ensures
        target == cell_of(cell, subcell),
{
    assert(cell >> 20 == cell / 0x10_0000 && (cell >> 20) < 0x1000) by (bit_vector);
    assert((cell >> 8) & 0xFFF == cell / 0x100 % 0x1000 && ((cell >> 8) & 0xFFF) < 0x1000)
        by (bit_vector);
    assert(cell & 0xFF == cell % 0x100 && (cell & 0xFF) < 0x100) by (bit_vector);
    Target::Cell {
        world_x: (cell >> 20) as i16,
        world_y: ((cell >> 8) & 0xFFF) as i16,
        world_z: (cell & 0xFF) as u8,
        subcell: subcell,
    }
}

/// An order that says which of its fields it holds.
#[derive(Debug, PartialEq, Eq)]
pub struct FieldsOrder {
    /// The name of the order.
    pub name: String,
    /// The flags as they were written; one byte is read as a number from 0 to 255.
    pub flags: i16,
    pub subject: Option<u32>,
    pub target: Option<Target>,
    pub target_string: Option<String>,
    pub extra_actors: Option<Vec<u32>>,
    pub extra_location: Option<i32>,
    pub extra_data: Option<u32>,
    pub grouped: Option<Vec<u32>>,
}

/// A `FieldsOrder` as contracts see it.
pub struct FieldsOrderView {
    pub name: Seq<char>,
    pub flags: i16,
    pub subject: Option<u32>,
    pub target: Option<Target>,
    pub target_string: Option<Seq<char>>,
    pub extra_actors: Option<Seq<u32>>,
    pub extra_location: Option<i32>,
    pub extra_data: Option<u32>,
    pub grouped: Option<Seq<u32>>,
}

/// The elements of a list that may be absent.
pub open spec fn list_view(list: Option<Vec<u32>>) -> Option<Seq<u32>> {
    match list {
        Some(l) => Some(l@),
        None => None,
    }
}

impl View for FieldsOrder {
    type V = FieldsOrderView;

    open spec fn view(&self) -> FieldsOrderView {
        FieldsOrderView {
            name: self.name@,
            flags: self.flags,
            subject: self.subject,
            target: self.target,
            target_string: text_of(self.target_string),
            extra_actors: list_view(self.extra_actors),
            extra_location: self.extra_location,
            extra_data: self.extra_data,
            grouped: list_view(self.grouped),
        }
    }
}

/// One order record.
#[derive(Debug, PartialEq, Eq)]
pub enum OrderBody {
    /// A synchronisation marker; it holds nothing.
    SyncHash,
    /// The greeting of a client: two strings.
    Handshake { name: String, target: String },
    Fields(FieldsOrder),
}

/// An order record as contracts see it.
pub enum OrderBodyView {
    SyncHash,
    Handshake { name: Seq<char>, target: Seq<char> },
    Fields(FieldsOrderView),
}

impl View for OrderBody {
    type V = OrderBodyView;

    open spec fn view(&self) -> OrderBodyView {
        match self {
            OrderBody::SyncHash => OrderBodyView::SyncHash,
            OrderBody::Handshake { name, target } => OrderBodyView::Handshake {
                name: name@,
                target: target@,
            },
            OrderBody::Fields(fields) => OrderBodyView::Fields(fields@),
        }
    }
}

/// The views of a list of order records.
pub open spec fn bodies_view(bodies: Seq<OrderBody>) -> Seq<OrderBodyView> {
    bodies.map_values(|b: OrderBody| b@)
}

/// The string that lies at `pos` with its length before it, and where it ends.
pub open spec fn text_at(bytes: Seq<u8>, pos: int) -> Result<(Seq<char>, int), DecodeError> {
    if string_fits(bytes, pos) {
        Ok(
            (
                lossy_text(bytes.subrange(string_start(bytes, pos), string_end(bytes, pos))),
                string_end(bytes, pos),
            ),
        )
    } else {
        Err(DecodeError::OutOfBounds)
    }
}

/// The flags that lie at `pos`: two bytes read with their sign when `wide`,
/// else one byte read without.
pub open spec fn flags_at(bytes: Seq<u8>, pos: int, wide: bool) -> Result<
    (i16, int),
    DecodeError,
> {
    if wide {
        if fits(bytes, pos, 2) {
            Ok((le_i16(bytes, pos) as i16, pos + 2))
        } else {
            Err(DecodeError::OutOfBounds)
        }
    } else {
        if fits(bytes, pos, 1) {
            Ok((bytes[pos] as i16, pos + 1))
        } else {
            Err(DecodeError::OutOfBounds)
        }
    }
}

/// An unsigned integer of four bytes at `pos`, read only when `present`.
pub open spec fn optional_u32_at(bytes: Seq<u8>, pos: int, present: bool) -> Result<
    (Option<u32>, int),
    DecodeError,
> {
    if !present {
        Ok((None, pos))
    } else if fits(bytes, pos, 4) {
        Ok((Some(le_u32(bytes, pos) as u32), pos + 4))
    } else {
        Err(DecodeError::OutOfBounds)
    }
}

/// A signed integer of four bytes at `pos`, read only when `present`.
pub open spec fn optional_i32_at(bytes: Seq<u8>, pos: int, present: bool) -> Result<
    (Option<i32>, int),
    DecodeError,
> {
    if !present {
        Ok((None, pos))
    } else if fits(bytes, pos, 4) {
        Ok((Some(le_i32(bytes, pos) as i32), pos + 4))
    } else {
        Err(DecodeError::OutOfBounds)
    }
}

/// A string at `pos`, read only when `present`.
pub open spec fn optional_text_at(bytes: Seq<u8>, pos: int, present: bool) -> Result<
    (Option<Seq<char>>, int),
    DecodeError,
> {
    if !present {
        Ok((None, pos))
    } else {
        match text_at(bytes, pos) {
            Ok((text, end)) => Ok((Some(text), end)),
            Err(e) => Err(e),
        }
    }
}

/// The `count` unsigned integers of four bytes that lie from `pos` on.
pub open spec fn ids_at(bytes: Seq<u8>, pos: int, count: int) -> Seq<u32> {
    Seq::new(count as nat, |i: int| le_u32(bytes, pos + 4 * i) as u32)
}

/// A list at `pos`, read only when `present`: a count of four bytes, then as many
/// identifiers of four bytes. The count is read with its sign when `signed`, and
/// a count below zero announces no identifier.
pub open spec fn optional_list_at(bytes: Seq<u8>, pos: int, present: bool, signed: bool) -> Result<
    (Option<Seq<u32>>, int),
    DecodeError,
> {
    if !present {
        Ok((None, pos))
    } else if !fits(bytes, pos, 4) {
        Err(DecodeError::OutOfBounds)
    } else {
        let written = if signed {
            le_i32(bytes, pos)
        } else {
            le_u32(bytes, pos)
        };
        let count = if written < 0 {
            0
        } else {
            written
        };
        if fits(bytes, pos + 4, 4 * count) {
            Ok((Some(ids_at(bytes, pos + 4, count)), pos + 4 + 4 * count))
        } else {
            Err(DecodeError::OutOfBounds)
        }
    }
}

/// The target at `pos`, read only when the flags announce one: a tag byte, then
/// what the tag calls for. Terrain is a packed cell and a byte when the flags say
/// so, else three coordinates of four bytes.
pub open spec fn optional_target_at(bytes: Seq<u8>, pos: int, flags: i16) -> Result<
    (Option<Target>, int),
    DecodeError,
> {
    if !has_field(flags, OrderFields::Target) {
        Ok((None, pos))
    } else if !fits(bytes, pos, 1) {
        Err(DecodeError::OutOfBounds)
    } else {
        match TargetType::of(bytes[pos]) {
            None => Err(DecodeError::UnknownTargetType),
            Some(TargetType::Invalid) => Ok((Some(Target::Invalid), pos + 1)),
            Some(TargetType::Actor) => if fits(bytes, pos + 1, 4) {
                Ok((Some(Target::Actor { actor_id: le_u32(bytes, pos + 1) as u32 }), pos + 5))
            } else {
                Err(DecodeError::OutOfBounds)
            },
            Some(TargetType::FrozenActor) => if fits(bytes, pos + 1, 8) {
                Ok(
                    (
                        Some(
                            Target::FrozenActor {
                                player_actor_id: le_u32(bytes, pos + 1) as u32,
                                frozen_actor_id: le_u32(bytes, pos + 5) as u32,
                            },
                        ),
                        pos + 9,
                    ),
                )
            } else {
                Err(DecodeError::OutOfBounds)
            },
            Some(TargetType::Terrain) => if has_field(flags, OrderFields::TargetIsCell) {
                if fits(bytes, pos + 1, 5) {
                    Ok((Some(cell_of(le_u32(bytes, pos + 1) as u32, bytes[pos + 5])), pos + 6))
                } else {
                    Err(DecodeError::OutOfBounds)
                }
            } else {
                if fits(bytes, pos + 1, 12) {
                    Ok(
                        (
                            Some(
                                Target::Position {
                                    x: le_u32(bytes, pos + 1) as u32,
                                    y: le_u32(bytes, pos + 5) as u32,
                                    z: le_u32(bytes, pos + 9) as u32,
                                },
                            ),
                            pos + 13,
                        ),
                    )
                } else {
                    Err(DecodeError::OutOfBounds)
                }
            },
        }
    }
}

/// The order with fields whose name starts at `pos`: the name, the flags, then
/// the fields that the flags announce, in this sequence: subject, target, target
/// string, extra actors, extra location, extra data, group.
pub open spec fn fields_at(bytes: Seq<u8>, pos: int, wide: bool) -> Result<
    (FieldsOrderView, int),
    DecodeError,
> {
    match text_at(bytes, pos) {
        Err(e) => Err(e),
        Ok((name, after_name)) => match flags_at(bytes, after_name, wide) {
            Err(e) => Err(e),
            Ok((flags, after_flags)) => match optional_u32_at(
                bytes,
                after_flags,
                has_field(flags, OrderFields::Subject),
            ) {
                Err(e) => Err(e),
                Ok((subject, after_subject)) => match optional_target_at(bytes, after_subject, flags) {
                    Err(e) => Err(e),
                    Ok((target, after_target)) => match optional_text_at(
                        bytes,
                        after_target,
                        has_field(flags, OrderFields::TargetString),
                    ) {
                        Err(e) => Err(e),
                        Ok((target_string, after_target_string)) => match optional_list_at(
                            bytes,
                            after_target_string,
                            has_field(flags, OrderFields::ExtraActors),
                            false,
                        ) {
                            Err(e) => Err(e),
                            Ok((extra_actors, after_extra_actors)) => match optional_i32_at(
                                bytes,
                                after_extra_actors,
                                has_field(flags, OrderFields::ExtraLocation),
                            ) {
                                Err(e) => Err(e),
                                Ok((extra_location, after_extra_location)) => match optional_u32_at(
                                    bytes,
                                    after_extra_location,
                                    has_field(flags, OrderFields::ExtraData),
                                ) {
                                    Err(e) => Err(e),
                                    Ok((extra_data, after_extra_data)) => match optional_list_at(
                                        bytes,
                                        after_extra_data,
                                        has_field(flags, OrderFields::Grouped),
                                        true,
                                    ) {
                                        Err(e) => Err(e),
                                        Ok((grouped, end)) => Ok(
                                            (
                                                FieldsOrderView {
                                                    name: name,
                                                    flags: flags,
                                                    subject: subject,
                                                    target: target,
                                                    target_string: target_string,
                                                    extra_actors: extra_actors,
                                                    extra_location: extra_location,
                                                    extra_data: extra_data,
                                                    grouped: grouped,
                                                },
                                                end,
                                            ),
                                        ),
                                    },
                                },
                            },
                        },
                    },
                },
            },
        },
    }
}

/// The order record at `pos`, and where it ends: a tag byte, then what the tag
/// calls for. A tag that names no kind of order record is refused.
#[verifier::opaque]
pub open spec fn order_at(bytes: Seq<u8>, pos: int, wide: bool) -> Result<
    (OrderBodyView, int),
    DecodeError,
> {
    if !fits(bytes, pos, 1) {
        Err(DecodeError::OutOfBounds)
    } else {
        match OrderType::of(bytes[pos]) {
            Some(OrderType::SyncHash) => Ok((OrderBodyView::SyncHash, pos + 1)),
            Some(OrderType::Handshake) => match text_at(bytes, pos + 1) {
                Err(e) => Err(e),
                Ok((name, after_name)) => match text_at(bytes, after_name) {
                    Err(e) => Err(e),
                    Ok((target, end)) => Ok(
                        (OrderBodyView::Handshake { name: name, target: target }, end),
                    ),
                },
            },
            Some(OrderType::Fields) => match fields_at(bytes, pos + 1, wide) {
                Err(e) => Err(e),
                Ok((fields, end)) => Ok((OrderBodyView::Fields(fields), end)),
            },
            _ => Err(DecodeError::UnknownOrderType),
        }
    }
}

fn read_text(reader: &mut ReplayReader) -> (result: Result<String, DecodeError>)
    ensures
        final(reader)@.bytes == old(reader)@.bytes,
        match text_at(old(reader)@.bytes, old(reader)@.pos) {
            Ok((text, end)) => result matches Ok(r) && r@ == text && final(reader)@.pos == end,
            Err(e) => result matches Err(r) && r == e,
        },
{
    reader.read_string()
}

fn read_flags(reader: &mut ReplayReader, wide: bool) -> (result: Result<i16, DecodeError>)
    ensures
        final(reader)@.bytes == old(reader)@.bytes,
        match flags_at(old(reader)@.bytes, old(reader)@.pos, wide) {
            Ok((flags, end)) => result == Ok::<i16, DecodeError>(flags) && final(reader)@.pos
                == end,
            Err(e) => result == Err::<i16, DecodeError>(e),
        },
{
    if wide {
        reader.read_i16()
    } else {
        let byte = reader.read_u8()?;
        Ok(byte as i16)
    }
}

fn read_optional_u32(reader: &mut ReplayReader, present: bool) -> (result: Result<
    Option<u32>,
    DecodeError,
>)
    ensures
        final(reader)@.bytes == old(reader)@.bytes,
        match optional_u32_at(old(reader)@.bytes, old(reader)@.pos, present) {
            Ok((value, end)) => result == Ok::<Option<u32>, DecodeError>(value)
                && final(reader)@.pos == end,
            Err(e) => result == Err::<Option<u32>, DecodeError>(e),
        },
{
    if present {
        let value = reader.read_u32()?;
        Ok(Some(value))
    } else {
        Ok(None)
    }
}

fn read_optional_i32(reader: &mut ReplayReader, present: bool) -> (result: Result<
    Option<i32>,
    DecodeError,
>)
    ensures
        final(reader)@.bytes == old(reader)@.bytes,
        match optional_i32_at(old(reader)@.bytes, old(reader)@.pos, present) {
            Ok((value, end)) => result == Ok::<Option<i32>, DecodeError>(value)
                && final(reader)@.pos == end,
            Err(e) => result == Err::<Option<i32>, DecodeError>(e),
        },
{
    if present {
        let value = reader.read_i32()?;
        Ok(Some(value))
    } else {
        Ok(None)
    }
}

fn read_optional_text(reader: &mut ReplayReader, present: bool) -> (result: Result<
    Option<String>,
    DecodeError,
>)
    ensures
        final(reader)@.bytes == old(reader)@.bytes,
        match optional_text_at(old(reader)@.bytes, old(reader)@.pos, present) {
            Ok((text, end)) => result matches Ok(r) && text_of(r) == text
                && final(reader)@.pos == end,
            Err(e) => result matches Err(r) && r == e,
        },
{
    if present {
        let text = read_text(reader)?;
        Ok(Some(text))
    } else {
        Ok(None)
    }
}

fn read_optional_list(reader: &mut ReplayReader, present: bool, signed: bool) -> (result: Result<
    Option<Vec<u32>>,
    DecodeError,
>)
    ensures
        final(reader)@.bytes == old(reader)@.bytes,
        match optional_list_at(old(reader)@.bytes, old(reader)@.pos, present, signed) {
            Ok((list, end)) => result matches Ok(r) && list_view(r) == list
                && final(reader)@.pos == end,
            Err(e) => result matches Err(r) && r == e,
        },
{
    if !present {
        return Ok(None);
    }
    let count: u32 = if signed {
        let written = reader.read_i32()?;
        if written < 0 {
            0
        } else {
            written as u32
        }
    } else {
        reader.read_u32()?
    };
    let start = reader.pos();
    let remaining = reader.len() - start;
    if count as usize > remaining / 4 {
        return Err(DecodeError::OutOfBounds);
    }
    let ghost bytes = reader@.bytes;
    let mut ids: Vec<u32> = Vec::new();
    let mut i: u32 = 0;
    while i < count
        invariant
            i <= count,
            reader@.bytes == bytes,
            start + 4 * count <= bytes.len(),
            reader@.pos == start + 4 * i,
            ids@ == ids_at(bytes, start as int, i as int),
        decreases count - i,
    {
        let id = reader.read_u32()?;
        ids.push(id);
        i = i + 1;
    }
    Ok(Some(ids))
}

fn read_optional_target(reader: &mut ReplayReader, flags: i16) -> (result: Result<
    Option<Target>,
    DecodeError,
>)
    ensures
        final(reader)@.bytes == old(reader)@.bytes,
        match optional_target_at(old(reader)@.bytes, old(reader)@.pos, flags) {
            Ok((target, end)) => result == Ok::<Option<Target>, DecodeError>(target)
                && final(reader)@.pos == end,
            Err(e) => result == Err::<Option<Target>, DecodeError>(e),
        },
{
    if !is_set(flags, OrderFields::Target) {
        return Ok(None);
    }
    let tag = reader.read_u8()?;
    let kind = match TargetType::from_byte(tag) {
        Some(kind) => kind,
        None => {
            return Err(DecodeError::UnknownTargetType);
        },
    };
    match kind {
        TargetType::Invalid => Ok(Some(Target::Invalid)),
        TargetType::Actor => {
            let actor_id = reader.read_u32()?;
            Ok(Some(Target::Actor { actor_id: actor_id }))
        },
        TargetType::FrozenActor => {
            let player_actor_id = reader.read_u32()?;
            let frozen_actor_id = reader.read_u32()?;
            Ok(
                Some(
                    Target::FrozenActor {
                        player_actor_id: player_actor_id,
                        frozen_actor_id: frozen_actor_id,
                    },
                ),
            )
        },
        TargetType::Terrain => {
            if is_set(flags, OrderFields::TargetIsCell) {
                let cell = reader.read_u32()?;
                let subcell = reader.read_u8()?;
                Ok(Some(decode_cell(cell, subcell)))
            } else {
                let x = reader.read_u32()?;
                let y = reader.read_u32()?;
                let z = reader.read_u32()?;
                Ok(Some(Target::Position { x: x, y: y, z: z }))
            }
        },
    }
}

fn read_fields(reader: &mut ReplayReader, wide: bool) -> (result: Result<
    FieldsOrder,
    DecodeError,
>)
    ensures
        final(reader)@.bytes == old(reader)@.bytes,
        match fields_at(old(reader)@.bytes, old(reader)@.pos, wide) {
            Ok((fields, end)) => result matches Ok(r) && r@ == fields && final(reader)@.pos
                == end,
            Err(e) => result matches Err(r) && r == e,
        },
{
    let name = read_text(reader)?;
    let flags = read_flags(reader, wide)?;
    let subject = read_optional_u32(reader, is_set(flags, OrderFields::Subject))?;
    let target = read_optional_target(reader, flags)?;
    let target_string = read_optional_text(reader, is_set(flags, OrderFields::TargetString))?;
    let extra_actors = read_optional_list(
        reader,
        is_set(flags, OrderFields::ExtraActors),
        false,
    )?;
    let extra_location = read_optional_i32(reader, is_set(flags, OrderFields::ExtraLocation))?;
    let extra_data = read_optional_u32(reader, is_set(flags, OrderFields::ExtraData))?;
    let grouped = read_optional_list(reader, is_set(flags, OrderFields::Grouped), true)?;
    Ok(
        FieldsOrder {
            name: name,
            flags: flags,
            subject: subject,
            target: target,
            target_string: target_string,
            extra_actors: extra_actors,
            extra_location: extra_location,
            extra_data: extra_data,
            grouped: grouped,
        },
    )
}

pub(crate) fn read_order(reader: &mut ReplayReader, wide: bool) -> (result: Result<OrderBody, DecodeError>)
    ensures
        final(reader)@.bytes == old(reader)@.bytes,
        match order_at(old(reader)@.bytes, old(reader)@.pos, wide) {
            Ok((order, end)) => result matches Ok(r) && r@ == order && final(reader)@.pos == end,
            Err(e) => result matches Err(r) && r == e,
        },
{
    reveal(order_at);
    let tag = reader.read_u8()?;
    match OrderType::from_byte(tag) {
        Some(OrderType::SyncHash) => Ok(OrderBody::SyncHash),
        Some(OrderType::Handshake) => {
            let name = read_text(reader)?;
            let target = read_text(reader)?;
            Ok(OrderBody::Handshake { name: name, target: target })
        },
        Some(OrderType::Fields) => {
            let fields = read_fields(reader, wide)?;
            Ok(OrderBody::Fields(fields))
        },
        _ => Err(DecodeError::UnknownOrderType),
    }
}

/// Reads the order record at the cursor. `wide_flags` says whether the flags of
/// an order with fields take two bytes or one. On failure the cursor stays where
/// it was.
pub fn parse_order(reader: &mut ReplayReader, wide_flags: bool) -> (result: Result<
    OrderBody,
    DecodeError,
>)
    ensures
        final(reader)@.bytes == old(reader)@.bytes,
        match order_at(old(reader)@.bytes, old(reader)@.pos, wide_flags) {
            Ok((order, end)) => result matches Ok(r) && r@ == order && final(reader)@.pos == end,
            Err(e) => result matches Err(r) && r == e && final(reader)@.pos == old(reader)@.pos,
        },
{
    let start = reader.pos();
    let result = read_order(reader, wide_flags);
    if result.is_err() {
        let _ = reader.set_pos(start);
    }
    result
}

proof fn lemma_text_advances(bytes: Seq<u8>, pos: int)
    requires
        0 <= pos,
        text_at(bytes, pos) is Ok,
    ensures
        pos < text_at(bytes, pos)->Ok_0.1 <= bytes.len(),
{
    lemma_varint_len_bounds(bytes, pos);
}

proof fn lemma_fields_advance(bytes: Seq<u8>, pos: int, wide: bool)
    requires
        0 <= pos,
        fields_at(bytes, pos, wide) is Ok,
    ensures
        pos < fields_at(bytes, pos, wide)->Ok_0.1 <= bytes.len(),
{
    lemma_text_advances(bytes, pos);
    let after_name = text_at(bytes, pos)->Ok_0.1;
    let (flags, after_flags) = flags_at(bytes, after_name, wide)->Ok_0;
    let after_subject = optional_u32_at(bytes, after_flags, has_field(flags, OrderFields::Subject))->Ok_0.1;
    let after_target = optional_target_at(bytes, after_subject, flags)->Ok_0.1;
    assert(after_subject <= after_target <= bytes.len());
    let after_target_string = optional_text_at(bytes, after_target, has_field(flags, OrderFields::TargetString))->Ok_0.1;
    if has_field(flags, OrderFields::TargetString) {
        lemma_text_advances(bytes, after_target);
    }
    assert(after_target <= after_target_string <= bytes.len());
    let after_extra_actors = optional_list_at(bytes, after_target_string, has_field(flags, OrderFields::ExtraActors), false)->Ok_0.1;
    assert(after_target_string <= after_extra_actors <= bytes.len());
    let after_extra_location = optional_i32_at(bytes, after_extra_actors, has_field(flags, OrderFields::ExtraLocation))->Ok_0.1;
    let after_extra_data = optional_u32_at(bytes, after_extra_location, has_field(flags, OrderFields::ExtraData))->Ok_0.1;
    let end = optional_list_at(bytes, after_extra_data, has_field(flags, OrderFields::Grouped), true)->Ok_0.1;
    assert(after_extra_data <= end <= bytes.len());
}

/// An order record that can be read takes at least its tag byte and ends inside
/// the buffer.
pub proof fn lemma_order_advances(bytes: Seq<u8>, pos: int, wide: bool)
    requires
        order_at(bytes, pos, wide) is Ok,
    ensures
        pos < order_at(bytes, pos, wide)->Ok_0.1 <= bytes.len(),
{
    reveal(order_at);
    match OrderType::of(bytes[pos]) {
        Some(OrderType::Handshake) => {
            lemma_text_advances(bytes, pos + 1);
            lemma_text_advances(bytes, text_at(bytes, pos + 1)->Ok_0.1);
        },
        Some(OrderType::Fields) => {
            lemma_fields_advance(bytes, pos + 1, wide);
        },
        _ => {},
    }
}

/// The order records that fill the bytes from `pos` to `end` exactly. A record
/// that ends behind `end` is a framing failure.
pub open spec fn orders_until(bytes: Seq<u8>, pos: int, end: int, wide: bool) -> Result<
    Seq<OrderBodyView>,
    DecodeError,
>
    decreases
        (if pos <= end {
            end - pos + 1
        } else {
            0
        }),
    via orders_until_terminates
{
    if pos == end {
        Ok(Seq::empty())
    } else if pos > end {
        Err(DecodeError::Framing)
    } else {
        match order_at(bytes, pos, wide) {
            Err(e) => Err(e),
            Ok((order, next)) => match orders_until(bytes, next, end, wide) {
                Err(e) => Err(e),
                Ok(rest) => Ok(seq![order] + rest),
            },
        }
    }
}

#[via_fn]
proof fn orders_until_terminates(bytes: Seq<u8>, pos: int, end: int, wide: bool) {
    if order_at(bytes, pos, wide) is Ok {
        lemma_order_advances(bytes, pos, wide);
    }
}

} // verus!
