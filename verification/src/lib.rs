//! Decoder for recorded real-time-strategy matches: a byte cursor, the variable-length
//! integer codec, the metadata block anchored at the end of the recording, and the
//! packet and order stream that precedes it.

pub mod endian;
pub mod error;
pub mod lookup;
pub mod metadata;
pub mod number;
pub mod orders;
pub mod reader;
pub mod render;
pub mod stream;
pub mod strings;
pub mod text;
pub mod varint;
pub mod version;

pub use crate::error::DecodeError;
pub use crate::lookup::{find_screenshot_id_in, map_info_from_fields, MapInfo};
pub use crate::metadata::{
    get_game_information, parse_game_information, read_metadata, Color, GameInformation,
    MetadataBlock, Player,
};
pub use crate::orders::{
    decode_cell, parse_order, FieldsOrder, OrderBody, OrderFields, OrderType, Target, TargetType,
};
pub use crate::reader::ReplayReader;
pub use crate::render::marker_pixel;
pub use crate::stream::{next_packet, parse_orders, Order, Packet};
pub use crate::text::get_rhs;
pub use crate::varint::decode_slice;
pub use crate::version::flags_are_short;
