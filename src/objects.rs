//! Payload decoders for the server-to-client commands.
use crate::text::utf8_string;
use crate::wire::{le16_bytes, le32_bytes, le_value, read_le, read_u16_le, read_u32_le, read_u8};
use crate::{ClientEvent, EventView};
use vstd::prelude::*;
use vstd::utf8::{decode_utf8, valid_utf8};

verus! {

/// An entity as the server packs it; this client keeps no packed state.
pub struct PackedEntity {}

/// The bits of an entity-state header; each names one bit position.
#[allow(non_camel_case_types)]
#[derive(Clone, Copy, Debug, PartialEq, Eq)]
pub enum EntityStateBits {
    ORIGIN1,
    ORIGIN2,
    ANGLE2,
    ANGLE3,
    FRAME8,
    EVENT,
    REMOVE,
    MOREBITS1,
    NUMBER16,
    ORIGIN3,
    ANGLE1,
    MODEL,
    RENDERFX8,
    ANGLE16,
    EFFECTS8,
    MOREBITS2,
    SKIN8,
    FRAME16,
    RENDERFX16,
    EFFECTS16,
    MODEL2,
    MODEL3,
    MODEL4,
    MOREBITS3,
    OLDORIGIN,
    SKIN16,
    SOUND,
    SOLID,
}

impl EntityStateBits {
    /// The header mask of this bit.
    pub open spec fn spec_mask(self) -> u32 {
        match self {
            EntityStateBits::ORIGIN1 => 0x1,
            EntityStateBits::ORIGIN2 => 0x2,
            EntityStateBits::ANGLE2 => 0x4,
            EntityStateBits::ANGLE3 => 0x8,
            EntityStateBits::FRAME8 => 0x10,
            EntityStateBits::EVENT => 0x20,
            EntityStateBits::REMOVE => 0x40,
            EntityStateBits::MOREBITS1 => 0x80,
            EntityStateBits::NUMBER16 => 0x100,
            EntityStateBits::ORIGIN3 => 0x200,
            EntityStateBits::ANGLE1 => 0x400,
            EntityStateBits::MODEL => 0x800,
            EntityStateBits::RENDERFX8 => 0x1000,
            EntityStateBits::ANGLE16 => 0x2000,
            EntityStateBits::EFFECTS8 => 0x4000,
            EntityStateBits::MOREBITS2 => 0x8000,
            EntityStateBits::SKIN8 => 0x10000,
            EntityStateBits::FRAME16 => 0x20000,
            EntityStateBits::RENDERFX16 => 0x40000,
            EntityStateBits::EFFECTS16 => 0x80000,
            EntityStateBits::MODEL2 => 0x100000,
            EntityStateBits::MODEL3 => 0x200000,
            EntityStateBits::MODEL4 => 0x400000,
            EntityStateBits::MOREBITS3 => 0x800000,
            EntityStateBits::OLDORIGIN => 0x1000000,
            EntityStateBits::SKIN16 => 0x2000000,
            EntityStateBits::SOUND => 0x4000000,
            EntityStateBits::SOLID => 0x8000000,
        }
    }

    pub fn mask(self) -> (r: u32)
        ensures
            r == self.spec_mask(),
    {
        match self {
            EntityStateBits::ORIGIN1 => 0x1,
            EntityStateBits::ORIGIN2 => 0x2,
            EntityStateBits::ANGLE2 => 0x4,
            EntityStateBits::ANGLE3 => 0x8,
            EntityStateBits::FRAME8 => 0x10,
            EntityStateBits::EVENT => 0x20,
            EntityStateBits::REMOVE => 0x40,
            EntityStateBits::MOREBITS1 => 0x80,
            EntityStateBits::NUMBER16 => 0x100,
            EntityStateBits::ORIGIN3 => 0x200,
            EntityStateBits::ANGLE1 => 0x400,
            EntityStateBits::MODEL => 0x800,
            EntityStateBits::RENDERFX8 => 0x1000,
            EntityStateBits::ANGLE16 => 0x2000,
            EntityStateBits::EFFECTS8 => 0x4000,
            EntityStateBits::MOREBITS2 => 0x8000,
            EntityStateBits::SKIN8 => 0x10000,
            EntityStateBits::FRAME16 => 0x20000,
            EntityStateBits::RENDERFX16 => 0x40000,
            EntityStateBits::EFFECTS16 => 0x80000,
            EntityStateBits::MODEL2 => 0x100000,
            EntityStateBits::MODEL3 => 0x200000,
            EntityStateBits::MODEL4 => 0x400000,
            EntityStateBits::MOREBITS3 => 0x800000,
            EntityStateBits::OLDORIGIN => 0x1000000,
            EntityStateBits::SKIN16 => 0x2000000,
            EntityStateBits::SOUND => 0x4000000,
            EntityStateBits::SOLID => 0x8000000,
        }
    }
}

/// Whether header `bits` has bit `b` set.
pub open spec fn bit_set(bits: u32, b: EntityStateBits) -> bool {
    bits & b.spec_mask() != 0
}

fn test_bit(bits: u32, b: EntityStateBits) -> (r: bool)
    ensures
        r == bit_set(bits, b),
{
    bits & b.mask() != 0
}

/// The level of a print command.
#[derive(Clone, Copy, Debug, PartialEq, Eq, Hash)]
pub enum PrintLevel {
    LOW,
    MEDIUM,
    HIGH,
    CHAT,
    UNK,
}

/// The print level a byte stands for.
pub open spec fn print_level_of(b: u8) -> PrintLevel {
    if b == 0 {
        PrintLevel::LOW
    } else if b == 1 {
        PrintLevel::MEDIUM
    } else if b == 2 {
        PrintLevel::HIGH
    } else if b == 3 {
        PrintLevel::CHAT
    } else {
        PrintLevel::UNK
    }
}

impl PrintLevel {
    pub fn from_byte(b: u8) -> (r: PrintLevel)
        ensures
            r == print_level_of(b),
    {
        match b {
            0 => PrintLevel::LOW,
            1 => PrintLevel::MEDIUM,
            2 => PrintLevel::HIGH,
            3 => PrintLevel::CHAT,
            _ => PrintLevel::UNK,
        }
    }
}

#[derive(Clone, Copy, Debug, PartialEq, Eq, Hash)]
pub struct R1Q2ProtocolInfo;

#[derive(Clone, Copy, Debug, PartialEq, Eq, Hash)]
pub struct Q2ProProtocolInfo;

/// What a server-data message carries past its common part, per protocol.
#[derive(Clone, Copy, Debug, PartialEq, Eq, Hash)]
pub enum ProtocolInfo {
    Vanilla,
    R1Q2(R1Q2ProtocolInfo),
    Q2Pro(Q2ProProtocolInfo),
}

/// The server-data command: the session's protocol, map and slot.
#[derive(Clone, Debug, PartialEq, Eq, Hash)]
pub struct ServerDataMessage {
    pub protocol: u32,
    pub srv_count: u32,
    pub attract_loop: u8,
    pub gamedir: String,
    pub clnum: u16,
    pub levelname: String,
    pub protocol_info: ProtocolInfo,
}

/// A `ServerDataMessage` with its names as character sequences.
pub struct ServerDataView {
    pub protocol: u32,
    pub srv_count: u32,
    pub attract_loop: u8,
    pub gamedir: Seq<char>,
    pub clnum: u16,
    pub levelname: Seq<char>,
    pub protocol_info: ProtocolInfo,
}

impl View for ServerDataMessage {
    type V = ServerDataView;

    open spec fn view(&self) -> ServerDataView {
        ServerDataView {
            protocol: self.protocol,
            srv_count: self.srv_count,
            attract_loop: self.attract_loop,
            gamedir: self.gamedir@,
            clnum: self.clnum,
            levelname: self.levelname@,
            protocol_info: self.protocol_info,
        }
    }
}

/// The fields of an entity that changed; an absent field did not.
/// Coordinates are in eighths of a unit and angles in 256ths of a turn,
/// as they travel on the wire.
#[derive(Clone, Copy, Debug, PartialEq, Eq)]
pub struct DeltaEntity {
    pub number: i16,
    pub model_index: Option<u8>,
    pub model_index2: Option<u8>,
    pub model_index3: Option<u8>,
    pub model_index4: Option<u8>,
    pub frame: Option<i16>,
    pub skin: Option<u32>,
    pub effects: Option<u32>,
    pub render_fx: Option<u32>,
    pub origin0: Option<u16>,
    pub origin1: Option<u16>,
    pub origin2: Option<u16>,
    pub angle0: Option<u8>,
    pub angle1: Option<u8>,
    pub angle2: Option<u8>,
    pub old_origin0: Option<u16>,
    pub old_origin1: Option<u16>,
    pub old_origin2: Option<u16>,
    pub sound: Option<u8>,
    pub event: u8,
    pub solid: Option<u32>,
}

/// How many bytes of `b` from `p` precede the first zero byte (or the end).
pub open spec fn cstr_len(b: Seq<u8>, p: int) -> nat
    decreases b.len() - p,
{
    if p < 0 || p >= b.len() || b[p] == 0 {
        0
    } else {
        1 + cstr_len(b, p + 1)
    }
}

/// The zero-terminated string at `p`, without its terminator.
pub open spec fn cstr(b: Seq<u8>, p: int) -> Seq<u8> {
    if 0 <= p < b.len() {
        b.subrange(p, p + cstr_len(b, p))
    } else {
        Seq::empty()
    }
}

/// The position after the string at `p` and its terminator, if it has one.
pub open spec fn after_cstr(b: Seq<u8>, p: int) -> int {
    if p >= b.len() {
        p
    } else if p + cstr_len(b, p) < b.len() {
        p + cstr_len(b, p) + 1
    } else {
        b.len() as int
    }
}

/// Reads a zero-terminated string: the bytes up to the first zero byte, or
/// to the end of the buffer when there is none. The zero is consumed, and
/// never part of the result.
pub fn parse_string(buf: &[u8], pos: &mut usize) -> (r: Vec<u8>)
    ensures
        r@ == cstr(buf@, *old(pos) as int),
        *final(pos) == after_cstr(buf@, *old(pos) as int),
        forall|k: int| 0 <= k < r@.len() ==> r@[k] != 0,
        *old(pos) + r@.len() < buf@.len() ==> buf@[*old(pos) + r@.len()] == 0,
{
    let ghost at0 = *pos as int;
    let mut out: Vec<u8> = Vec::new();
    if *pos >= buf.len() {
        assert(out@ =~= cstr(buf@, at0));
        return out;
    }
    while *pos < buf.len() && buf[*pos] != 0
        invariant
            at0 <= *pos <= buf@.len(),
            at0 < buf@.len(),
            out@ == buf@.subrange(at0, *pos as int),
            cstr_len(buf@, at0) == (*pos - at0) + cstr_len(buf@, *pos as int),
            forall|k: int| 0 <= k < out@.len() ==> out@[k] != 0,
        decreases buf@.len() - *pos,
    {
        out.push(buf[*pos]);
        *pos = *pos + 1;
        assert(out@ =~= buf@.subrange(at0, *pos as int));
    }
    if *pos < buf.len() {
        *pos = *pos + 1;
    }
    out
}

/// The print command at `p`: a level byte and a string.
pub open spec fn print_at(b: Seq<u8>, p: int) -> Option<(EventView, int)> {
    if 0 <= p < b.len() {
        Some((EventView::Print(print_level_of(b[p]), cstr(b, p + 1)), after_cstr(b, p + 1)))
    } else {
        None
    }
}

/// The print command: a level byte and a string.
pub fn parse_print(buf: &[u8], pos: &mut usize) -> (r: Option<ClientEvent>)
    ensures
        match print_at(buf@, *old(pos) as int) {
            None => r is None,
            Some((e, end)) => r matches Some(ev) && ev@ == e && *final(pos) == end,
        },
{
    let level = PrintLevel::from_byte(read_u8(buf, pos)?);
    let content = parse_string(buf, pos);
    Some(ClientEvent::Print(level, content))
}

/// The server-data command at `p`, when every field is there and both
/// names are UTF-8: protocol, server count, attract-loop flag, game
/// directory, client number and level name.
pub open spec fn serverdata_at(b: Seq<u8>, p: int) -> Option<(EventView, int)> {
    let dir_at = p + 9;
    let clnum_at = after_cstr(b, dir_at);
    let level_at = clnum_at + 2;
    if 0 <= p && p + 9 <= b.len() && clnum_at + 2 <= b.len() && valid_utf8(cstr(b, dir_at)) && valid_utf8(
        cstr(b, level_at),
    ) {
        Some(
            (
                EventView::ServerData(
                    ServerDataView {
                        protocol: le_value(b, p, 4) as u32,
                        srv_count: le_value(b, p + 4, 4) as u32,
                        attract_loop: b[p + 8],
                        gamedir: decode_utf8(cstr(b, dir_at)),
                        clnum: le_value(b, clnum_at, 2) as u16,
                        levelname: decode_utf8(cstr(b, level_at)),
                        protocol_info: ProtocolInfo::Vanilla,
                    },
                ),
                after_cstr(b, level_at),
            ),
        )
    } else {
        None
    }
}

/// The server-data command.
pub fn parse_serverdata(buf: &[u8], pos: &mut usize) -> (r: Option<ClientEvent>)
    ensures
        match serverdata_at(buf@, *old(pos) as int) {
            None => r is None,
            Some((e, end)) => r matches Some(ev) && ev@ == e && *final(pos) == end,
        },
{
    let protocol = read_u32_le(buf, pos)?;
    let srv_count = read_u32_le(buf, pos)?;
    let attract_loop = read_u8(buf, pos)?;
    let gamedir = utf8_string(parse_string(buf, pos))?;
    let clnum = read_u16_le(buf, pos)?;
    let levelname = utf8_string(parse_string(buf, pos))?;
    Some(
        ClientEvent::ServerData(
            ServerDataMessage {
                protocol,
                srv_count,
                attract_loop,
                gamedir,
                clnum,
                levelname,
                protocol_info: ProtocolInfo::Vanilla,
            },
        ),
    )
}

/// The config-string command at `p`: an index and a string.
pub open spec fn configstring_at(b: Seq<u8>, p: int) -> Option<(EventView, int)> {
    if 0 <= p && p + 2 <= b.len() {
        Some((EventView::ConfigString(le_value(b, p, 2) as u16, cstr(b, p + 2)), after_cstr(b, p + 2)))
    } else {
        None
    }
}

/// The config-string command.
pub fn parse_configstring(buf: &[u8], pos: &mut usize) -> (r: Option<ClientEvent>)
    ensures
        match configstring_at(buf@, *old(pos) as int) {
            None => r is None,
            Some((e, end)) => r matches Some(ev) && ev@ == e && *final(pos) == end,
        },
{
    let index = read_u16_le(buf, pos)?;
    Some(ClientEvent::ConfigString(index, parse_string(buf, pos)))
}

/// How many header bytes the entity header at `p` has: each byte whose top
/// bit is set announces one more, up to four. `None` when the buffer ends first.
pub open spec fn bits_len(b: Seq<u8>, p: int) -> Option<nat> {
    if p < 0 || p >= b.len() {
        None
    } else if b[p] < 128 {
        Some(1)
    } else if p + 1 >= b.len() {
        None
    } else if b[p + 1] < 128 {
        Some(2)
    } else if p + 2 >= b.len() {
        None
    } else if b[p + 2] < 128 {
        Some(3)
    } else if p + 3 >= b.len() {
        None
    } else {
        Some(4)
    }
}

/// The entity header at `p`: the entity number, the header bits, and the
/// position after them. The number is a little-endian `i16` when NUMBER16 is
/// set, else one signed byte.
pub open spec fn entity_header(b: Seq<u8>, p: int) -> Option<(i16, u32, int)> {
    match bits_len(b, p) {
        None => None,
        Some(n) => {
            let bits = le_value(b, p, n) as u32;
            let q = p + n;
            if bit_set(bits, EntityStateBits::NUMBER16) {
                if q + 2 <= b.len() {
                    Some((le_value(b, q, 2) as i16, bits, q + 2))
                } else {
                    None
                }
            } else if q + 1 <= b.len() {
                Some((b[q] as i8 as i16, bits, q + 1))
            } else {
                None
            }
        },
    }
}

/// Reads an entity header: its number and its bits.
pub fn parse_entity_bits(buf: &[u8], pos: &mut usize) -> (r: Option<(i16, u32)>)
    ensures
        entity_header(buf@, *old(pos) as int) is None ==> r is None,
        entity_header(buf@, *old(pos) as int) matches Some((number, bits, end)) ==> r == Some((number, bits))
            && *final(pos) == end,
{
    let ghost p = *pos as int;
    let b0 = read_u8(buf, pos)?;
    let mut total: u32 = b0 as u32;
    if b0 >= 128 {
        let b1 = read_u8(buf, pos)?;
        total = total + b1 as u32 * 256;
        if b1 >= 128 {
            let b2 = read_u8(buf, pos)?;
            total = total + b2 as u32 * 65536;
            if b2 >= 128 {
                let b3 = read_u8(buf, pos)?;
                total = total + b3 as u32 * 16777216;
            }
        }
    }
    let number: i16 = if test_bit(total, EntityStateBits::NUMBER16) {
        match read_u16_le(buf, pos) {
            Some(v) => v as i16,
            None => return None,
        }
    } else {
        match read_u8(buf, pos) {
            Some(v) => v as i8 as i16,
            None => return None,
        }
    };
    Some((number, total))
}

/// How many bytes a header with `bits` takes: up to the highest byte that
/// holds a set bit.
pub open spec fn header_width(bits: u32) -> nat {
    if bits >= 0x100_0000 {
        4
    } else if bits >= 0x1_0000 {
        3
    } else if bits >= 0x100 {
        2
    } else {
        1
    }
}

/// Header bits as an encoder writes them: 28 bits at most, each
/// continuation bit set exactly when a later byte is needed.
pub open spec fn header_shaped(bits: u32) -> bool {
    &&& bits < 0x1000_0000
    &&& (bits & 0x80 != 0) == (bits >= 0x100)
    &&& (bits & 0x8000 != 0) == (bits >= 0x1_0000)
    &&& (bits & 0x80_0000 != 0) == (bits >= 0x100_0000)
}

/// The encoded entity header: the header bytes of `bits`, then the entity
/// number as a little-endian `i16` under NUMBER16, else as one signed byte.
pub open spec fn header_encoding(bits: u32, number: i16) -> Seq<u8> {
    le32_bytes(bits).subrange(0, header_width(bits) as int) + if bit_set(bits, EntityStateBits::NUMBER16) {
        le16_bytes(number as u16)
    } else {
        seq![number as u8]
    }
}

/// The header decoder reads back what the encoder writes, whatever follows.
pub proof fn lemma_entity_header_round_trip(bits: u32, number: i16, rest: Seq<u8>)
    requires
        header_shaped(bits),
        !bit_set(bits, EntityStateBits::NUMBER16) ==> -128 <= number <= 127,
    ensures
        entity_header(header_encoding(bits, number) + rest, 0) == Some(
            (number, bits, header_encoding(bits, number).len() as int),
        ),
{
    let b = header_encoding(bits, number) + rest;
    let w = header_width(bits);
    let x = bits;
    assert((x % 256 >= 128) == (x & 0x80 != 0)) by (bit_vector);
    assert((x / 256 % 256 >= 128) == (x & 0x8000 != 0)) by (bit_vector);
    assert((x / 65536 % 256 >= 128) == (x & 0x80_0000 != 0)) by (bit_vector);
    assert(x < 0x100 ==> x % 256 == x) by (bit_vector);
    assert(x < 0x1_0000 ==> x % 256 + 256 * (x / 256 % 256) == x) by (bit_vector);
    assert(x < 0x100_0000 ==> x % 256 + 256 * (x / 256 % 256) + 65536 * (x / 65536 % 256) == x) by (bit_vector);
    assert(x % 256 + 256 * (x / 256 % 256) + 65536 * (x / 65536 % 256) + 16777216 * (x / 16777216) == x)
        by (bit_vector);
    let n = number;
    assert((n as u16 % 256) as int + 256 * (n as u16 / 256) as int == n as u16 as int) by (bit_vector);
    assert((n as u16 as u32) as i16 == n) by (bit_vector);
    assert(-128 <= n <= 127 ==> (n as u8) as i8 as i16 == n) by (bit_vector);
    let h = le32_bytes(bits).subrange(0, w as int);
    assert(forall|k: int| 0 <= k < w ==> b[k] == le32_bytes(bits)[k]);
    assert(bits_len(b, 0) == Some(w));
    assert(le_value(b, 0, w) == bits as int);
    if bit_set(bits, EntityStateBits::NUMBER16) {
        assert(b[w as int] == le16_bytes(n as u16)[0] && b[w + 1int] == le16_bytes(n as u16)[1]);
    } else {
        assert(b[w as int] == n as u8);
    }
}

/// The position after a field of `width` bytes at `p`, read when `present`.
/// A field cut short by the end of the buffer fails the whole entity.
pub open spec fn after_field(b: Seq<u8>, p: Option<int>, present: bool, width: nat) -> Option<int> {
    match p {
        None => None,
        Some(q) => if !present {
            Some(q)
        } else if q + width <= b.len() {
            Some(q + width)
        } else {
            None
        },
    }
}

/// The value of a field of `width` bytes at `p`, read when `present` and there.
pub open spec fn field_value(b: Seq<u8>, p: Option<int>, present: bool, width: nat) -> Option<u32> {
    match p {
        Some(q) => if present && 0 <= q && q + width <= b.len() {
            Some(le_value(b, q, width) as u32)
        } else {
            None
        },
        None => None,
    }
}

/// The width of a skin, effects or render-fx field: both of its bits set
/// mean a 32-bit value, else its 8-bit or its 16-bit form.
pub open spec fn wide_width(bits: u32, low: EntityStateBits, high: EntityStateBits) -> nat {
    if bit_set(bits, low) && bit_set(bits, high) {
        4
    } else if bit_set(bits, low) {
        1
    } else {
        2
    }
}

pub open spec fn opt_u8(v: Option<u32>) -> Option<u8> {
    match v {
        Some(x) => Some(x as u8),
        None => None,
    }
}

pub open spec fn opt_u16(v: Option<u32>) -> Option<u16> {
    match v {
        Some(x) => Some(x as u16),
        None => None,
    }
}

pub open spec fn opt_i16(v: Option<u32>) -> Option<i16> {
    match v {
        Some(x) => Some(x as i16),
        None => None,
    }
}

/// With FRAME8 and FRAME16 both set the frame takes three bytes, and is
/// the little-endian `i16` after the first of them.
pub proof fn lemma_frame_both_bits(b: Seq<u8>, p: int, bits: u32)
    requires
        0 <= p,
        p + 3 <= b.len(),
        bit_set(bits, EntityStateBits::FRAME8),
        bit_set(bits, EntityStateBits::FRAME16),
    ensures
        after_field(b, after_field(b, Some(p), true, 1), true, 2) == Some(p + 3),
        opt_i16(field_value(b, after_field(b, Some(p), true, 1), true, 2)) == Some(
            le_value(b, p + 1, 2) as i16,
        ),
{
}

/// With both bits of a skin, effects or render-fx field set (the laser
/// case) the field is a four-byte little-endian `u32`.
pub proof fn lemma_laser_field(b: Seq<u8>, p: int, bits: u32, low: EntityStateBits, high: EntityStateBits)
    requires
        0 <= p,
        p + 4 <= b.len(),
        bit_set(bits, low),
        bit_set(bits, high),
    ensures
        wide_width(bits, low, high) == 4,
        after_field(b, Some(p), true, wide_width(bits, low, high)) == Some(p + 4),
        field_value(b, Some(p), true, wide_width(bits, low, high)) == Some(le_value(b, p, 4) as u32),
{
}

/// An entity with no field changed.
pub open spec fn blank_delta(number: i16) -> DeltaEntity {
    DeltaEntity {
        number,
        model_index: None,
        model_index2: None,
        model_index3: None,
        model_index4: None,
        frame: None,
        skin: None,
        effects: None,
        render_fx: None,
        origin0: None,
        origin1: None,
        origin2: None,
        angle0: None,
        angle1: None,
        angle2: None,
        old_origin0: None,
        old_origin1: None,
        old_origin2: None,
        sound: None,
        event: 0,
        solid: None,
    }
}

/// The first fields at `p`: model indices, frame, skin, effects
/// and render-fx, set on `d`. When FRAME8 and FRAME16 are both set a byte is
/// skipped before the 16-bit frame.
#[verifier::opaque]
pub open spec fn head_at(b: Seq<u8>, p: int, bits: u32, d: DeltaEntity) -> Option<(DeltaEntity, int)> {
    let at0 = Some(p);
    let at1 = after_field(b, at0, bit_set(bits, EntityStateBits::MODEL), 1);
    let at2 = after_field(b, at1, bit_set(bits, EntityStateBits::MODEL2), 1);
    let at3 = after_field(b, at2, bit_set(bits, EntityStateBits::MODEL3), 1);
    let at4 = after_field(b, at3, bit_set(bits, EntityStateBits::MODEL4), 1);
    let at5 = after_field(b, at4, bit_set(bits, EntityStateBits::FRAME8), 1);
    let at6 = after_field(b, at5, bit_set(bits, EntityStateBits::FRAME16), 2);
    let skin = bit_set(bits, EntityStateBits::SKIN8) || bit_set(bits, EntityStateBits::SKIN16);
    let skin_w = wide_width(bits, EntityStateBits::SKIN8, EntityStateBits::SKIN16);
    let at7 = after_field(b, at6, skin, skin_w);
    let fx = bit_set(bits, EntityStateBits::EFFECTS8) || bit_set(bits, EntityStateBits::EFFECTS16);
    let fx_w = wide_width(bits, EntityStateBits::EFFECTS8, EntityStateBits::EFFECTS16);
    let at8 = after_field(b, at7, fx, fx_w);
    let rfx = bit_set(bits, EntityStateBits::RENDERFX8) || bit_set(bits, EntityStateBits::RENDERFX16);
    let rfx_w = wide_width(bits, EntityStateBits::RENDERFX8, EntityStateBits::RENDERFX16);
    let at9 = after_field(b, at8, rfx, rfx_w);
    match at9 {
        None => None,
        Some(end) => Some(
            (
                DeltaEntity {
                    model_index: opt_u8(field_value(b, at0, bit_set(bits, EntityStateBits::MODEL), 1)),
                    model_index2: opt_u8(field_value(b, at1, bit_set(bits, EntityStateBits::MODEL2), 1)),
                    model_index3: opt_u8(field_value(b, at2, bit_set(bits, EntityStateBits::MODEL3), 1)),
                    model_index4: opt_u8(field_value(b, at3, bit_set(bits, EntityStateBits::MODEL4), 1)),
                    frame: if bit_set(bits, EntityStateBits::FRAME16) {
                        opt_i16(field_value(b, at5, true, 2))
                    } else {
                        opt_i16(field_value(b, at4, bit_set(bits, EntityStateBits::FRAME8), 1))
                    },
                    skin: field_value(b, at6, skin, skin_w),
                    effects: field_value(b, at7, fx, fx_w),
                    render_fx: field_value(b, at8, rfx, rfx_w),
                    ..d
                },
                end,
            ),
        ),
    }
}

/// The middle fields at `p`, set on `d`: origin, angles, old origin and sound.
#[verifier::opaque]
pub open spec fn middle_at(b: Seq<u8>, p: int, bits: u32, d: DeltaEntity) -> Option<(DeltaEntity, int)> {
    let at9 = Some(p);
    let at10 = after_field(b, at9, bit_set(bits, EntityStateBits::ORIGIN1), 2);
    let at11 = after_field(b, at10, bit_set(bits, EntityStateBits::ORIGIN2), 2);
    let at12 = after_field(b, at11, bit_set(bits, EntityStateBits::ORIGIN3), 2);
    let at13 = after_field(b, at12, bit_set(bits, EntityStateBits::ANGLE1), 1);
    let at14 = after_field(b, at13, bit_set(bits, EntityStateBits::ANGLE2), 1);
    let at15 = after_field(b, at14, bit_set(bits, EntityStateBits::ANGLE3), 1);
    let old = bit_set(bits, EntityStateBits::OLDORIGIN);
    let at16 = after_field(b, at15, old, 2);
    let at17 = after_field(b, at16, old, 2);
    let at18 = after_field(b, at17, old, 2);
    let at19 = after_field(b, at18, bit_set(bits, EntityStateBits::SOUND), 1);
    match at19 {
        None => None,
        Some(end) => Some((
        DeltaEntity {
            origin0: opt_u16(field_value(b, at9, bit_set(bits, EntityStateBits::ORIGIN1), 2)),
            origin1: opt_u16(field_value(b, at10, bit_set(bits, EntityStateBits::ORIGIN2), 2)),
            origin2: opt_u16(field_value(b, at11, bit_set(bits, EntityStateBits::ORIGIN3), 2)),
            angle0: opt_u8(field_value(b, at12, bit_set(bits, EntityStateBits::ANGLE1), 1)),
            angle1: opt_u8(field_value(b, at13, bit_set(bits, EntityStateBits::ANGLE2), 1)),
            angle2: opt_u8(field_value(b, at14, bit_set(bits, EntityStateBits::ANGLE3), 1)),
            old_origin0: opt_u16(field_value(b, at15, old, 2)),
            old_origin1: opt_u16(field_value(b, at16, old, 2)),
            old_origin2: opt_u16(field_value(b, at17, old, 2)),
            sound: opt_u8(field_value(b, at18, bit_set(bits, EntityStateBits::SOUND), 1)),
            ..d
        },
        end,
    )),
    }
}

/// The last fields at `p`, set on `d`: event (zero when absent) and solid.
#[verifier::opaque]
pub open spec fn tail_at(b: Seq<u8>, p: int, bits: u32, d: DeltaEntity) -> Option<(DeltaEntity, int)> {
    let at19 = Some(p);
    let at20 = after_field(b, at19, bit_set(bits, EntityStateBits::EVENT), 1);
    let at21 = after_field(b, at20, bit_set(bits, EntityStateBits::SOLID), 2);
    match at21 {
        None => None,
        Some(end) => Some(
            (
                DeltaEntity {
                    event: match field_value(b, at19, bit_set(bits, EntityStateBits::EVENT), 1) {
                        Some(e) => e as u8,
                        None => 0,
                    },
                    solid: field_value(b, at20, bit_set(bits, EntityStateBits::SOLID), 2),
                    ..d
                },
                end,
            ),
        ),
    }
}

/// The delta fields of entity `number` with header `bits`, at `p`, and the
/// position after them, in wire order: head, middle, tail. Any field cut
/// short fails the entity.
pub open spec fn delta_at(b: Seq<u8>, p: int, number: i16, bits: u32) -> Option<(DeltaEntity, int)> {
    match head_at(b, p, bits, blank_delta(number)) {
        None => None,
        Some((d1, q1)) => match middle_at(b, q1, bits, d1) {
            None => None,
            Some((d2, q2)) => tail_at(b, q2, bits, d2),
        },
    }
}

/// With only FRAME8 and FRAME16 set, an entity's delta fields are three
/// bytes: a skipped byte and the little-endian `i16` frame; nothing else
/// changes.
pub proof fn lemma_frame_only_entity(b: Seq<u8>, p: int, number: i16)
    requires
        0 <= p,
        p + 3 <= b.len(),
    ensures
        delta_at(b, p, number, 0x0002_0010) == Some(
            (DeltaEntity { frame: Some(le_value(b, p + 1, 2) as u16 as i16), ..blank_delta(number) }, p + 3),
        ),
{
    let bits: u32 = 0x0002_0010;
    assert(bits & 0x1 == 0 && bits & 0x2 == 0 && bits & 0x4 == 0 && bits & 0x8 == 0 && bits & 0x10 != 0 && bits
        & 0x20 == 0 && bits & 0x200 == 0 && bits & 0x400 == 0 && bits & 0x800 == 0 && bits & 0x1000 == 0 && bits
        & 0x4000 == 0 && bits & 0x10000 == 0 && bits & 0x20000 != 0 && bits & 0x40000 == 0 && bits & 0x80000 == 0
        && bits & 0x100000 == 0 && bits & 0x200000 == 0 && bits & 0x400000 == 0 && bits & 0x1000000 == 0 && bits
        & 0x2000000 == 0 && bits & 0x4000000 == 0 && bits & 0x8000000 == 0) by (bit_vector)
        requires
            bits == 0x0002_0010u32,
    ;
    reveal(head_at);
    reveal(middle_at);
    reveal(tail_at);
}

/// With only SKIN8 and SKIN16 set (the laser case), an entity's delta
/// fields are four bytes: the little-endian `u32` skin; nothing else changes.
pub proof fn lemma_laser_skin_entity(b: Seq<u8>, p: int, number: i16)
    requires
        0 <= p,
        p + 4 <= b.len(),
    ensures
        delta_at(b, p, number, 0x0201_0000) == Some(
            (DeltaEntity { skin: Some(le_value(b, p, 4) as u32), ..blank_delta(number) }, p + 4),
        ),
{
    let bits: u32 = 0x0201_0000;
    assert(bits & 0x1 == 0 && bits & 0x2 == 0 && bits & 0x4 == 0 && bits & 0x8 == 0 && bits & 0x10 == 0 && bits
        & 0x20 == 0 && bits & 0x200 == 0 && bits & 0x400 == 0 && bits & 0x800 == 0 && bits & 0x1000 == 0 && bits
        & 0x4000 == 0 && bits & 0x10000 != 0 && bits & 0x20000 == 0 && bits & 0x40000 == 0 && bits & 0x80000 == 0
        && bits & 0x100000 == 0 && bits & 0x200000 == 0 && bits & 0x400000 == 0 && bits & 0x1000000 == 0 && bits
        & 0x2000000 != 0 && bits & 0x4000000 == 0 && bits & 0x8000000 == 0) by (bit_vector)
        requires
            bits == 0x0201_0000u32,
    ;
    reveal(head_at);
    reveal(middle_at);
    reveal(tail_at);
}

/// Reads one field as `after_field` and `field_value` describe it; `None`
/// when the field is cut short.
fn read_field(buf: &[u8], pos: &mut usize, present: bool, width: usize) -> (r: Option<
    Option<u32>,
>)
    requires
        width == 1 || width == 2 || width == 4,
    ensures
        r is None <==> after_field(buf@, Some(*old(pos) as int), present, width as nat) is None,
        r matches Some(v) ==> v == field_value(buf@, Some(*old(pos) as int), present, width as nat)
            && after_field(buf@, Some(*old(pos) as int), present, width as nat) == Some(
            *final(pos) as int,
        ),
{
    if !present {
        return Some(None);
    }
    match read_le(buf, pos, width) {
        Some(v) => Some(Some(v)),
        None => None,
    }
}

/// Reads a skin, effects or render-fx field: 32 bits when both of its bits
/// are set, else 8 or 16.
fn read_wide(buf: &[u8], pos: &mut usize, bits: u32, low: EntityStateBits, high: EntityStateBits) -> (r:
    Option<Option<u32>>)
    ensures
        ({
            let present = bit_set(bits, low) || bit_set(bits, high);
            let w = wide_width(bits, low, high);
            &&& r is None <==> after_field(buf@, Some(*old(pos) as int), present, w) is None
            &&& r matches Some(v) ==> v == field_value(buf@, Some(*old(pos) as int), present, w)
                && after_field(buf@, Some(*old(pos) as int), present, w) == Some(*final(pos) as int)
        }),
        bit_set(bits, low) && bit_set(bits, high) && *old(pos) + 4 <= buf@.len() ==> r == Some(
            Some(le_value(buf@, *old(pos) as int, 4) as u32),
        ) && *final(pos) == *old(pos) + 4,
{
    let l = test_bit(bits, low);
    let h = test_bit(bits, high);
    let w: usize = if l && h {
        4
    } else if l {
        1
    } else {
        2
    };
    read_field(buf, pos, l || h, w)
}

/// Reads the frame: one byte under FRAME8, a little-endian `i16` under
/// FRAME16, and under both a byte that is skipped and then the `i16`.
fn read_frame(buf: &[u8], pos: &mut usize, bits: u32) -> (r: Option<Option<i16>>)
    ensures
        ({
            let at4 = Some(*old(pos) as int);
            let at5 = after_field(buf@, at4, bit_set(bits, EntityStateBits::FRAME8), 1);
            let at6 = after_field(buf@, at5, bit_set(bits, EntityStateBits::FRAME16), 2);
            &&& r is None <==> at6 is None
            &&& r is Some ==> at6 == Some(*final(pos) as int)
            &&& r matches Some(v) ==> v == if bit_set(bits, EntityStateBits::FRAME16) {
                opt_i16(field_value(buf@, at5, true, 2))
            } else {
                opt_i16(field_value(buf@, at4, bit_set(bits, EntityStateBits::FRAME8), 1))
            }
        }),
        bit_set(bits, EntityStateBits::FRAME8) && bit_set(bits, EntityStateBits::FRAME16) && *old(pos) + 3
            <= buf@.len() ==> r == Some(Some(le_value(buf@, *old(pos) + 1, 2) as u16 as i16)) && *final(pos)
            == *old(pos) + 3,
{
    let narrow = test_bit(bits, EntityStateBits::FRAME8);
    let wide = test_bit(bits, EntityStateBits::FRAME16);
    let low = read_field(buf, pos, narrow, 1)?;
    let high = read_field(buf, pos, wide, 2)?;
    if wide {
        match high {
            Some(v) => Some(Some(v as i16)),
            None => Some(None),
        }
    } else {
        match low {
            Some(v) => Some(Some(v as i16)),
            None => Some(None),
        }
    }
}

fn narrow_u8(v: Option<u32>) -> (r: Option<u8>)
    ensures
        r == opt_u8(v),
{
    match v {
        Some(x) => Some(x as u8),
        None => None,
    }
}

fn narrow_u16(v: Option<u32>) -> (r: Option<u16>)
    ensures
        r == opt_u16(v),
{
    match v {
        Some(x) => Some(x as u16),
        None => None,
    }
}

fn read_head(buf: &[u8], pos: &mut usize, bits: u32, d: DeltaEntity) -> (r: Option<DeltaEntity>)
    ensures
        head_at(buf@, *old(pos) as int, bits, d) is None ==> r is None,
        head_at(buf@, *old(pos) as int, bits, d) matches Some((d2, end)) ==> r == Some(d2) && *final(pos) == end,
{
    reveal(head_at);
    let model_index = narrow_u8(read_field(buf, pos, test_bit(bits, EntityStateBits::MODEL), 1)?);
    let model_index2 = narrow_u8(read_field(buf, pos, test_bit(bits, EntityStateBits::MODEL2), 1)?);
    let model_index3 = narrow_u8(read_field(buf, pos, test_bit(bits, EntityStateBits::MODEL3), 1)?);
    let model_index4 = narrow_u8(read_field(buf, pos, test_bit(bits, EntityStateBits::MODEL4), 1)?);
    let frame = read_frame(buf, pos, bits)?;
    let skin = read_wide(buf, pos, bits, EntityStateBits::SKIN8, EntityStateBits::SKIN16)?;
    let effects = read_wide(buf, pos, bits, EntityStateBits::EFFECTS8, EntityStateBits::EFFECTS16)?;
    let render_fx = read_wide(buf, pos, bits, EntityStateBits::RENDERFX8, EntityStateBits::RENDERFX16)?;
    Some(
        DeltaEntity {
            model_index,
            model_index2,
            model_index3,
            model_index4,
            frame,
            skin,
            effects,
            render_fx,
            ..d
        },
    )
}

fn read_middle(buf: &[u8], pos: &mut usize, bits: u32, d: DeltaEntity) -> (r: Option<DeltaEntity>)
    ensures
        middle_at(buf@, *old(pos) as int, bits, d) is None ==> r is None,
        middle_at(buf@, *old(pos) as int, bits, d) matches Some((d2, end)) ==> r == Some(d2) && *final(pos) == end,
{
    reveal(middle_at);
    let origin0 = narrow_u16(read_field(buf, pos, test_bit(bits, EntityStateBits::ORIGIN1), 2)?);
    let origin1 = narrow_u16(read_field(buf, pos, test_bit(bits, EntityStateBits::ORIGIN2), 2)?);
    let origin2 = narrow_u16(read_field(buf, pos, test_bit(bits, EntityStateBits::ORIGIN3), 2)?);
    let angle0 = narrow_u8(read_field(buf, pos, test_bit(bits, EntityStateBits::ANGLE1), 1)?);
    let angle1 = narrow_u8(read_field(buf, pos, test_bit(bits, EntityStateBits::ANGLE2), 1)?);
    let angle2 = narrow_u8(read_field(buf, pos, test_bit(bits, EntityStateBits::ANGLE3), 1)?);
    let old = test_bit(bits, EntityStateBits::OLDORIGIN);
    let old_origin0 = narrow_u16(read_field(buf, pos, old, 2)?);
    let old_origin1 = narrow_u16(read_field(buf, pos, old, 2)?);
    let old_origin2 = narrow_u16(read_field(buf, pos, old, 2)?);
    let sound = narrow_u8(read_field(buf, pos, test_bit(bits, EntityStateBits::SOUND), 1)?);
    Some(DeltaEntity {
        origin0,
        origin1,
        origin2,
        angle0,
        angle1,
        angle2,
        old_origin0,
        old_origin1,
        old_origin2,
        sound,
        ..d
    })
}

fn read_tail(buf: &[u8], pos: &mut usize, bits: u32, d: DeltaEntity) -> (r: Option<DeltaEntity>)
    ensures
        tail_at(buf@, *old(pos) as int, bits, d) is None ==> r is None,
        tail_at(buf@, *old(pos) as int, bits, d) matches Some((d2, end)) ==> r == Some(d2) && *final(pos) == end,
{
    reveal(tail_at);
    let event = match read_field(buf, pos, test_bit(bits, EntityStateBits::EVENT), 1)? {
        Some(e) => e as u8,
        None => 0,
    };
    let solid = read_field(buf, pos, test_bit(bits, EntityStateBits::SOLID), 2)?;
    Some(DeltaEntity { event, solid, ..d })
}

/// Reads the delta fields that `bits` announces for entity `entnum`.
fn parse_delta_entity(entnum: i16, bits: u32, buf: &[u8], pos: &mut usize) -> (r: Option<DeltaEntity>)
    ensures
        delta_at(buf@, *old(pos) as int, entnum, bits) is None ==> r is None,
        delta_at(buf@, *old(pos) as int, entnum, bits) matches Some((d, end)) ==> r == Some(d) && *final(pos)
            == end,
{
    let blank = DeltaEntity {
        number: entnum,
        model_index: None,
        model_index2: None,
        model_index3: None,
        model_index4: None,
        frame: None,
        skin: None,
        effects: None,
        render_fx: None,
        origin0: None,
        origin1: None,
        origin2: None,
        angle0: None,
        angle1: None,
        angle2: None,
        old_origin0: None,
        old_origin1: None,
        old_origin2: None,
        sound: None,
        event: 0,
        solid: None,
    };
    let head = read_head(buf, pos, bits, blank)?;
    let middle = read_middle(buf, pos, bits, head)?;
    read_tail(buf, pos, bits, middle)
}

/// The spawn-baseline command at `p`: an entity header and its delta fields.
pub open spec fn baseline_at(b: Seq<u8>, p: int) -> Option<(EventView, int)> {
    match entity_header(b, p) {
        None => None,
        Some((number, bits, q)) => match delta_at(b, q, number, bits) {
            None => None,
            Some((d, end)) => Some((EventView::DeltaEntity(d), end)),
        },
    }
}

/// The spawn-baseline command.
pub fn parse_baseline(buf: &[u8], pos: &mut usize) -> (r: Option<ClientEvent>)
    ensures
        match baseline_at(buf@, *old(pos) as int) {
            None => r is None,
            Some((e, end)) => r matches Some(ev) && ev@ == e && *final(pos) == end,
        },
{
    let (number, bits) = parse_entity_bits(buf, pos)?;
    let d = parse_delta_entity(number, bits, buf, pos)?;
    Some(ClientEvent::DeltaEntity(d))
}

} // verus!
