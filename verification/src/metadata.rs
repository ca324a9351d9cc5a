//! The session metadata: players, map and engine version, written as text in a
//! block at the end of the recording.

use std::collections::HashMap;
use vstd::prelude::*;
use vstd::slice::slice_subrange;
use vstd::utf8::{decode_utf8, encode_utf8, encode_utf8_decode_utf8, encode_utf8_valid_utf8, valid_utf8};
use crate::endian::{le_bytes_i32, le_i32, lemma_le_i32_at};
use crate::error::DecodeError;
use crate::reader::ReplayReader;
use crate::number::{parse_i32, parse_number};
use crate::strings::{from_chars, text_of, to_chars};
use crate::text::{find_line_end, get_rhs, line_end, lemma_line_end_bounds, rhs, starts_with, trim, trimmed};

verus! {

/// A colour of four components of eight bits.
#[derive(Clone, Copy, Debug, PartialEq, Eq, Structural)]
pub struct Color {
    pub r: u8,
    pub g: u8,
    pub b: u8,
    pub a: u8,
}

/// A participant of the match.
#[derive(Debug, PartialEq, Eq)]
pub struct Player {
    pub client_id: i32,
    pub name: String,
    pub color: Color,
}

/// A participant as contracts see it.
pub struct PlayerView {
    pub client_id: i32,
    pub name: Seq<char>,
    pub color: Color,
}

impl View for Player {
    type V = PlayerView;

    open spec fn view(&self) -> PlayerView {
        PlayerView { client_id: self.client_id, name: self.name@, color: self.color }
    }
}

/// What the metadata block says of the match.
#[derive(Debug, PartialEq, Eq)]
pub struct GameInformation {
    pub version: String,
    pub map_uid: String,
    pub players: HashMap<i32, Player>,
}

/// The metadata as contracts see it.
pub struct GameInformationView {
    pub version: Seq<char>,
    pub map_uid: Seq<char>,
    pub players: Map<i32, PlayerView>,
}

/// The registry of players as contracts see it: each player by its view.
pub open spec fn players_view(players: Map<i32, Player>) -> Map<i32, PlayerView> {
    players.map_values(|p: Player| p@)
}

impl View for GameInformation {
    type V = GameInformationView;

    open spec fn view(&self) -> GameInformationView {
        GameInformationView {
            version: self.version@,
            map_uid: self.map_uid@,
            players: players_view(self.players@),
        }
    }
}

/// The colour that the number `c` stands for: red, green and blue are the third,
/// second and first byte of its two's-complement pattern, and it is fully opaque.
pub open spec fn color_of(c: i32) -> Color {
    let w: int = if c < 0 {
        c + 0x1_0000_0000
    } else {
        c as int
    };
    Color {
        r: (w / 0x1_0000 % 0x100) as u8,
        g: (w / 0x100 % 0x100) as u8,
        b: (w % 0x100) as u8,
        a: 255,
    }
}

/// The colour that the number `c` stands for.
pub fn color_from_number(c: i32) -> (color: Color)
    ensures
        color == color_of(c),
{
    let w: i64 = if c < 0 {
        c as i64 + 0x1_0000_0000
    } else {
        c as i64
    };
    Color {
        r: (w / 0x1_0000 % 0x100) as u8,
        g: (w / 0x100 % 0x100) as u8,
        b: (w % 0x100) as u8,
        a: 255,
    }
}

/// The fields of a player that the text has given so far, not yet committed.
pub struct Pending {
    pub client_id: Option<i32>,
    pub name: Option<Seq<char>>,
    pub color: Option<Seq<char>>,
}

/// Where the reading of the metadata text stands.
pub struct ParseState {
    pub pending: Pending,
    pub players: Map<i32, PlayerView>,
    pub map_uid: Option<Seq<char>>,
    pub version: Option<Seq<char>>,
}

/// The state before the first line.
pub open spec fn initial_state() -> ParseState {
    ParseState {
        pending: Pending { client_id: None, name: None, color: None },
        players: Map::empty(),
        map_uid: None,
        version: None,
    }
}

/// Commits the pending player to the registry. All three fields must be there,
/// and the colour must be a number in base sixteen.
pub open spec fn commit(pending: Pending, players: Map<i32, PlayerView>) -> Result<
    Map<i32, PlayerView>,
    DecodeError,
> {
    if pending.client_id is None || pending.color is None {
        Err(DecodeError::MissingField)
    } else if parse_i32(pending.color->0, 16) is None {
        Err(DecodeError::InvalidNumber)
    } else if pending.name is None {
        Err(DecodeError::MissingField)
    } else {
        Ok(
            players.insert(
                pending.client_id->0,
                PlayerView {
                    client_id: pending.client_id->0,
                    name: pending.name->0,
                    color: color_of(parse_i32(pending.color->0, 16)->0),
                },
            ),
        )
    }
}

/// What one trimmed line does to the state. A line that opens a player section
/// commits the pending player if a client index is on record; a key line records
/// its value; any other line changes nothing.
pub open spec fn step(st: ParseState, line: Seq<char>) -> Result<ParseState, DecodeError> {
    if "Player@"@.is_prefix_of(line) {
        if st.pending.client_id is Some {
            match commit(st.pending, st.players) {
                Ok(players) => Ok(
                    ParseState {
                        pending: Pending { client_id: None, name: None, color: None },
                        players: players,
                        map_uid: st.map_uid,
                        version: st.version,
                    },
                ),
                Err(e) => Err(e),
            }
        } else {
            Ok(st)
        }
    } else if "ClientIndex:"@.is_prefix_of(line) {
        match parse_i32(rhs(line), 10) {
            Some(id) => Ok(
                ParseState {
                    pending: Pending {
                        client_id: Some(id),
                        name: st.pending.name,
                        color: st.pending.color,
                    },
                    players: st.players,
                    map_uid: st.map_uid,
                    version: st.version,
                },
            ),
            None => Err(DecodeError::InvalidNumber),
        }
    } else if "Name:"@.is_prefix_of(line) {
        Ok(
            ParseState {
                pending: Pending {
                    client_id: st.pending.client_id,
                    name: Some(rhs(line)),
                    color: st.pending.color,
                },
                players: st.players,
                map_uid: st.map_uid,
                version: st.version,
            },
        )
    } else if "Color:"@.is_prefix_of(line) {
        Ok(
            ParseState {
                pending: Pending {
                    client_id: st.pending.client_id,
                    name: st.pending.name,
                    color: Some(rhs(line)),
                },
                players: st.players,
                map_uid: st.map_uid,
                version: st.version,
            },
        )
    } else if "MapUid:"@.is_prefix_of(line) {
        Ok(
            ParseState {
                pending: st.pending,
                players: st.players,
                map_uid: Some(rhs(line)),
                version: st.version,
            },
        )
    } else if "Version:"@.is_prefix_of(line) {
        Ok(
            ParseState {
                pending: st.pending,
                players: st.players,
                map_uid: st.map_uid,
                version: Some(rhs(line)),
            },
        )
    } else {
        Ok(st)
    }
}

/// The state after all lines of `text` from position `pos` on, each trimmed and
/// taken in turn.
pub open spec fn run_lines(text: Seq<char>, pos: int, st: ParseState) -> Result<
    ParseState,
    DecodeError,
>
    decreases text.len() + 1 - pos,
    via run_lines_terminates
{
    if pos < 0 || pos >= text.len() {
        Ok(st)
    } else {
        let end = line_end(text, pos);
        match step(st, trimmed(text.subrange(pos, end))) {
            Ok(next) => run_lines(text, end + 1, next),
            Err(e) => Err(e),
        }
    }
}

#[via_fn]
proof fn run_lines_terminates(text: Seq<char>, pos: int, st: ParseState) {
    if 0 <= pos < text.len() {
        lemma_line_end_bounds(text, pos);
    }
}

/// Whether any field of a player is on record and waits to be committed.
pub open spec fn is_pending(pending: Pending) -> bool {
    pending.client_id is Some || pending.name is Some || pending.color is Some
}

/// What the state amounts to once the text has ended: a player that is still
/// pending is committed, and the map and the version must have been named.
pub open spec fn finish(st: ParseState) -> Result<GameInformationView, DecodeError> {
    let registry = if is_pending(st.pending) {
        commit(st.pending, st.players)
    } else {
        Ok(st.players)
    };
    match registry {
        Err(e) => Err(e),
        Ok(players) => if st.version is None || st.map_uid is None {
            Err(DecodeError::MissingField)
        } else {
            Ok(
                GameInformationView {
                    version: st.version->0,
                    map_uid: st.map_uid->0,
                    players: players,
                },
            )
        },
    }
}

/// What the metadata text says, or why it cannot be read.
pub open spec fn text_information(text: Seq<char>) -> Result<GameInformationView, DecodeError> {
    match run_lines(text, 0, initial_state()) {
        Ok(st) => finish(st),
        Err(e) => Err(e),
    }
}

/// The elements of a vector that may be absent.
pub open spec fn chars_of(chars: Option<Vec<char>>) -> Option<Seq<char>> {
    match chars {
        Some(c) => Some(c@),
        None => None,
    }
}

/// Commits a player to the registry, under its client index. All three fields
/// must be there and the colour must be a number in base sixteen; otherwise the
/// registry stays as it is.
pub fn save_player(
    players: &mut HashMap<i32, Player>,
    client_id: Option<i32>,
    name: Option<String>,
    color: Option<Vec<char>>,
) -> (result: Result<(), DecodeError>)
    ensures
        match commit(
            Pending { client_id: client_id, name: text_of(name), color: chars_of(color) },
            players_view(old(players)@),
        ) {
            Ok(registry) => result is Ok && players_view(final(players)@) == registry,
            Err(e) => result == Err::<(), DecodeError>(e) && final(players)@ == old(players)@,
        },
{
    broadcast use vstd::std_specs::hash::group_hash_axioms;

    let id = match client_id {
        Some(id) => id,
        None => {
            return Err(DecodeError::MissingField);
        },
    };
    let color_text = match color {
        Some(c) => c,
        None => {
            return Err(DecodeError::MissingField);
        },
    };
    let number = match parse_number(color_text.as_slice(), 16) {
        Some(n) => n,
        None => {
            return Err(DecodeError::InvalidNumber);
        },
    };
    let name = match name {
        Some(n) => n,
        None => {
            return Err(DecodeError::MissingField);
        },
    };
    let player = Player { client_id: id, name: name, color: color_from_number(number) };
    players.insert(id, player);
    Ok(())
}

/// Reads the metadata text: what it says of the match, or why it cannot be read.
/// The fields of a player are gathered line by line and committed together: when
/// the next player section opens, if a client index is on record by then, and
/// when the text ends, if any field is on record by then.
pub fn parse_game_information(text: &str) -> (result: Result<GameInformation, DecodeError>)
    ensures
        match text_information(text@) {
            Ok(information) => result matches Ok(r) && r@ == information,
            Err(e) => result matches Err(r) && r == e,
        },
{
    broadcast use vstd::std_specs::hash::group_hash_axioms;

    let chars = to_chars(text);
    let mut client_id: Option<i32> = None;
    let mut name: Option<String> = None;
    let mut color: Option<Vec<char>> = None;
    let mut players: HashMap<i32, Player> = HashMap::new();
    let mut map_uid: Option<String> = None;
    let mut version: Option<String> = None;
    let mut pos: usize = 0;
    let ghost mut st = initial_state();
    while pos < chars.len()
        invariant
            pos <= chars.len(),
            chars@ == text@,
            st.pending == (Pending {
                client_id: client_id,
                name: text_of(name),
                color: chars_of(color),
            }),
            st.players == players_view(players@),
            st.map_uid == text_of(map_uid),
            st.version == text_of(version),
            text_information(text@) == match run_lines(chars@, pos as int, st) {
                Ok(last) => finish(last),
                Err(e) => Err(e),
            },
        decreases chars.len() - pos,
    {
        let end = find_line_end(chars.as_slice(), pos);
        let line = trim(slice_subrange(chars.as_slice(), pos, end));
        let ghost next = step(st, line@);
        if starts_with(line, "Player@") {
            if client_id.is_some() {
                match save_player(&mut players, client_id, name, color) {
                    Ok(()) => {},
                    Err(e) => {
                        return Err(e);
                    },
                }
                client_id = None;
                name = None;
                color = None;
            }
        } else if starts_with(line, "ClientIndex:") {
            let owned = from_chars(line);
            let value = to_chars(get_rhs(owned.as_str()));
            match parse_number(value.as_slice(), 10) {
                Some(id) => {
                    client_id = Some(id);
                },
                None => {
                    return Err(DecodeError::InvalidNumber);
                },
            }
        } else if starts_with(line, "Name:") {
            let owned = from_chars(line);
            name = Some(get_rhs(owned.as_str()).to_owned());
        } else if starts_with(line, "Color:") {
            let owned = from_chars(line);
            color = Some(to_chars(get_rhs(owned.as_str())));
        } else if starts_with(line, "MapUid:") {
            let owned = from_chars(line);
            map_uid = Some(get_rhs(owned.as_str()).to_owned());
        } else if starts_with(line, "Version:") {
            let owned = from_chars(line);
            version = Some(get_rhs(owned.as_str()).to_owned());
        }
        proof {
            st = next->Ok_0;
            if end == chars.len() {
                assert(run_lines(chars@, end + 1, st) == Ok::<ParseState, DecodeError>(st));
            }
        }
        pos = if end == chars.len() {
            end
        } else {
            end + 1
        };
    }
    if client_id.is_some() || name.is_some() || color.is_some() {
        match save_player(&mut players, client_id, name, color) {
            Ok(()) => {},
            Err(e) => {
                return Err(e);
            },
        }
    }
    match (version, map_uid) {
        (Some(version), Some(map_uid)) => Ok(
            GameInformation { version: version, map_uid: map_uid, players: players },
        ),
        _ => Err(DecodeError::MissingField),
    }
}

/// The metadata block as it lies in the recording, before its text is read.
#[derive(Debug, PartialEq, Eq)]
pub struct MetadataBlock {
    /// The number that the block gives as the version of its own layout.
    pub layout_version: i32,
    pub text: String,
}

/// The metadata block as contracts see it.
pub struct MetadataBlockView {
    pub layout_version: i32,
    pub text: Seq<char>,
}

impl View for MetadataBlock {
    type V = MetadataBlockView;

    open spec fn view(&self) -> MetadataBlockView {
        MetadataBlockView { layout_version: self.layout_version, text: self.text@ }
    }
}

/// Where the metadata block of a recording starts. The last eight bytes hold a
/// length and the closing marker `-2`; the block is the last `8 + length + 8`
/// bytes of the buffer and opens with the marker `-1`.
pub open spec fn block_start(bytes: Seq<u8>) -> Result<int, DecodeError> {
    let len = bytes.len() as int;
    if len < 8 {
        Err(DecodeError::OutOfBounds)
    } else if le_i32(bytes, len - 4) != -2 {
        Err(DecodeError::EndMarkerMismatch)
    } else if le_i32(bytes, len - 8) < 0 || len < 16 + le_i32(bytes, len - 8) {
        Err(DecodeError::OutOfBounds)
    } else if le_i32(bytes, len - (16 + le_i32(bytes, len - 8))) != -1 {
        Err(DecodeError::StartMarkerMismatch)
    } else {
        Ok(len - (16 + le_i32(bytes, len - 8)))
    }
}

/// The bytes of the metadata text: behind the opening marker, the layout version
/// and the text's length, as many bytes as that length says.
pub open spec fn block_text_bytes(bytes: Seq<u8>) -> Result<Seq<u8>, DecodeError> {
    match block_start(bytes) {
        Err(e) => Err(e),
        Ok(start) => {
            let strlen = le_i32(bytes, start + 8);
            if strlen < 0 || start + 12 + strlen > bytes.len() {
                Err(DecodeError::OutOfBounds)
            } else {
                Ok(bytes.subrange(start + 12, start + 12 + strlen))
            }
        },
    }
}

/// The metadata block of a recording, or why there is none to be had.
pub open spec fn metadata_block(bytes: Seq<u8>) -> Result<MetadataBlockView, DecodeError> {
    match block_text_bytes(bytes) {
        Err(e) => Err(e),
        Ok(text) => if valid_utf8(text) {
            Ok(
                MetadataBlockView {
                    layout_version: le_i32(bytes, block_start(bytes)->Ok_0 + 4) as i32,
                    text: decode_utf8(text),
                },
            )
        } else {
            Err(DecodeError::InvalidText)
        },
    }
}

/// What the metadata block of a recording says of the match.
pub open spec fn game_information(bytes: Seq<u8>) -> Result<GameInformationView, DecodeError> {
    match metadata_block(bytes) {
        Err(e) => Err(e),
        Ok(block) => text_information(block.text),
    }
}

/// A metadata block as it is written: the opening marker, the layout version, the
/// length of the text in bytes, the text, that length plus four, the closing marker.
pub open spec fn block_bytes(layout_version: i32, text: Seq<char>) -> Seq<u8> {
    let payload = encode_utf8(text);
    le_bytes_i32(-1int) + le_bytes_i32(layout_version as int) + le_bytes_i32(payload.len() as int)
        + payload + le_bytes_i32(payload.len() as int + 4) + le_bytes_i32(-2int)
}

#[verifier::rlimit(50)]
proof fn lemma_block_layout(garbage: Seq<u8>, layout_version: i32, text: Seq<char>)
    requires
        encode_utf8(text).len() + 4 <= i32::MAX,
    ensures
        ({
            let bytes = garbage + block_bytes(layout_version, text);
            let g = garbage.len() as int;
            let n = encode_utf8(text).len() as int;
            &&& bytes.len() == g + 20 + n
            &&& le_i32(bytes, g) == -1
            &&& le_i32(bytes, g + 4) == layout_version
            &&& le_i32(bytes, g + 8) == n
            &&& bytes.subrange(g + 12, g + 12 + n) == encode_utf8(text)
            &&& le_i32(bytes, g + 12 + n) == n + 4
            &&& le_i32(bytes, g + 16 + n) == -2
        }),
{
    let payload = encode_utf8(text);
    let n = payload.len() as int;
    let opening = le_bytes_i32(-1int);
    let version = le_bytes_i32(layout_version as int);
    let length = le_bytes_i32(n);
    let block_len = le_bytes_i32(n + 4);
    let closing = le_bytes_i32(-2int);
    let bytes = garbage + block_bytes(layout_version, text);
    let g = garbage.len() as int;
    assert(opening.len() == 4 && version.len() == 4 && length.len() == 4 && block_len.len() == 4
        && closing.len() == 4);
    assert(bytes.len() == g + 20 + n);
    assert(bytes.subrange(g, g + 4) =~= opening);
    assert(bytes.subrange(g + 4, g + 8) =~= version);
    assert(bytes.subrange(g + 8, g + 12) =~= length);
    assert(bytes.subrange(g + 12, g + 12 + n) =~= payload);
    assert(bytes.subrange(g + 12 + n, g + 16 + n) =~= block_len);
    assert(bytes.subrange(g + 16 + n, g + 20 + n) =~= closing);
    lemma_le_i32_at(bytes, g, -1i32);
    lemma_le_i32_at(bytes, g + 4, layout_version);
    lemma_le_i32_at(bytes, g + 8, n as i32);
    lemma_le_i32_at(bytes, g + 12 + n, (n + 4) as i32);
    lemma_le_i32_at(bytes, g + 16 + n, -2i32);
}

/// A metadata block written behind any bytes is found again from the end: its
/// layout version and its text come back as they were written.
#[verifier::rlimit(50)]
pub proof fn lemma_metadata_round_trip(garbage: Seq<u8>, layout_version: i32, text: Seq<char>)
    requires
        encode_utf8(text).len() + 4 <= i32::MAX,
    ensures
        metadata_block(garbage + block_bytes(layout_version, text)) == Ok::<
            MetadataBlockView,
            DecodeError,
        >(MetadataBlockView { layout_version: layout_version, text: text }),
{
    let bytes = garbage + block_bytes(layout_version, text);
    lemma_block_layout(garbage, layout_version, text);
    assert(block_start(bytes) == Ok::<int, DecodeError>(garbage.len() as int));
    assert(block_text_bytes(bytes) == Ok::<Seq<u8>, DecodeError>(encode_utf8(text)));
    encode_utf8_valid_utf8(text);
    encode_utf8_decode_utf8(text);
}

/// Finds the metadata block from the end of the buffer and reads its text. On
/// success the cursor is left at the start of the buffer; on failure it stays
/// where it was.
pub fn read_metadata(reader: &mut ReplayReader) -> (result: Result<MetadataBlock, DecodeError>)
    ensures
        final(reader)@.bytes == old(reader)@.bytes,
        match metadata_block(old(reader)@.bytes) {
            Ok(block) => result matches Ok(r) && r@ == block && final(reader)@.pos == 0,
            Err(e) => result matches Err(r) && r == e && final(reader)@.pos == old(reader)@.pos,
        },
{
    let mut scan = ReplayReader::new(reader.buffer());
    let total_len = scan.len();
    if total_len < 8 {
        return Err(DecodeError::OutOfBounds);
    }
    let _ = scan.set_pos(total_len - 8);
    let metadata_len = match scan.read_i32() {
        Ok(v) => v,
        Err(e) => {
            return Err(e);
        },
    };
    let marker = match scan.read_i32() {
        Ok(v) => v,
        Err(e) => {
            return Err(e);
        },
    };
    if marker != -2 {
        return Err(DecodeError::EndMarkerMismatch);
    }
    if metadata_len < 0 || total_len < 16 || total_len - 16 < metadata_len as usize {
        return Err(DecodeError::OutOfBounds);
    }
    let _ = scan.set_pos(total_len - 16 - metadata_len as usize);
    let start_marker = match scan.read_i32() {
        Ok(v) => v,
        Err(e) => {
            return Err(e);
        },
    };
    if start_marker != -1 {
        return Err(DecodeError::StartMarkerMismatch);
    }
    let layout_version = match scan.read_i32() {
        Ok(v) => v,
        Err(e) => {
            return Err(e);
        },
    };
    let strlen = match scan.read_i32() {
        Ok(v) => v,
        Err(e) => {
            return Err(e);
        },
    };
    if strlen < 0 {
        return Err(DecodeError::OutOfBounds);
    }
    let text = match scan.read_string_with_length(strlen as usize) {
        Ok(text) => text,
        Err(e) => {
            return Err(e);
        },
    };
    let _ = reader.set_pos(0);
    Ok(MetadataBlock { layout_version: layout_version, text: text })
}

/// Reads the metadata block at the end of the buffer: the players, the map and
/// the engine version of the match. On success the cursor is left at the start of
/// the buffer; on failure it stays where it was.
pub fn get_game_information(reader: &mut ReplayReader) -> (result: Result<
    GameInformation,
    DecodeError,
>)
    ensures
        final(reader)@.bytes == old(reader)@.bytes,
        match game_information(old(reader)@.bytes) {
            Ok(information) => result matches Ok(r) && r@ == information && final(reader)@.pos
                == 0,
            Err(e) => result matches Err(r) && r == e && final(reader)@.pos == old(reader)@.pos,
        },
{
    let saved = reader.pos();
    let block = match read_metadata(reader) {
        Ok(block) => block,
        Err(e) => {
            return Err(e);
        },
    };
    match parse_game_information(block.text.as_str()) {
        Ok(information) => Ok(information),
        Err(e) => {
            let _ = reader.set_pos(saved);
            Err(e)
        },
    }
}

} // verus!
