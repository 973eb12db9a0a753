use vstd::prelude::*;

pub mod msg_buf;
pub mod netchan;
pub mod objects;
pub mod session;
pub mod text;
pub mod user_info;
pub mod wire;

use crate::objects::{DeltaEntity, PrintLevel, ServerDataMessage, ServerDataView};

verus! {

/// Largest payload a single outgoing datagram may carry.
pub const MAX_WRITEABLE_SIZE: usize = 4096;

/// The protocol versions a server may speak; this client speaks `Vanilla` (34).
#[derive(Clone, Copy, Debug, PartialEq, Eq)]
pub enum ProtocolVersion {
    Vanilla,
    R1Q2,
    Q2Pro,
}

impl ProtocolVersion {
    pub open spec fn spec_number(self) -> u8 {
        match self {
            ProtocolVersion::Vanilla => 34,
            ProtocolVersion::R1Q2 => 35,
            ProtocolVersion::Q2Pro => 36,
        }
    }

    /// The version's number on the wire.
    pub fn number(self) -> (r: u8)
        ensures
            r == self.spec_number(),
    {
        match self {
            ProtocolVersion::Vanilla => 34,
            ProtocolVersion::R1Q2 => 35,
            ProtocolVersion::Q2Pro => 36,
        }
    }
}

/// Client-to-server command bytes.
#[derive(Clone, Copy, Debug, PartialEq, Eq)]
pub enum ClientToServerOps {
    Bad,
    Nop,
    Move,
    Userinfo,
    StringCmd,
    Setting,
    MoveNodelta,
    MoveBatched,
    UserinfoDelta,
}

impl ClientToServerOps {
    pub open spec fn spec_byte(self) -> u8 {
        match self {
            ClientToServerOps::Bad => 0,
            ClientToServerOps::Nop => 1,
            ClientToServerOps::Move => 2,
            ClientToServerOps::Userinfo => 3,
            ClientToServerOps::StringCmd => 4,
            ClientToServerOps::Setting => 5,
            ClientToServerOps::MoveNodelta => 10,
            ClientToServerOps::MoveBatched => 11,
            ClientToServerOps::UserinfoDelta => 12,
        }
    }

    /// The command's byte on the wire.
    pub fn byte(self) -> (r: u8)
        ensures
            r == self.spec_byte(),
    {
        match self {
            ClientToServerOps::Bad => 0,
            ClientToServerOps::Nop => 1,
            ClientToServerOps::Move => 2,
            ClientToServerOps::Userinfo => 3,
            ClientToServerOps::StringCmd => 4,
            ClientToServerOps::Setting => 5,
            ClientToServerOps::MoveNodelta => 10,
            ClientToServerOps::MoveBatched => 11,
            ClientToServerOps::UserinfoDelta => 12,
        }
    }
}

/// A server's answer to `getchallenge`: the challenge value and the
/// protocols it offers.
#[derive(Clone, Debug)]
pub struct Challenge {
    pub ch_value: String,
    pub protocols: String,
}

/// Server-to-client command bytes; `Invalid` stands for any byte past the table.
#[derive(Clone, Copy, Debug, PartialEq, Eq, Hash)]
pub enum ServerToClientOps {
    Bad,
    MuzzleFlash,
    MuzzleFlash2,
    TempEntity,
    Layout,
    Inventory,
    Nop,
    Disconnect,
    Reconnect,
    Sound,
    Print,
    StuffText,
    ServerData,
    ConfigString,
    SpawnBaseline,
    CenterPrint,
    Download,
    PlayerInfo,
    PacketEntities,
    DeltaPacketEntities,
    Frame,
    ZPacket,
    ZDownload,
    Gamestate,
    Setting,
    Invalid,
}

/// The command a byte stands for.
pub open spec fn op_of(b: u8) -> ServerToClientOps {
    if b == 0 {
        ServerToClientOps::Bad
    } else if b == 1 {
        ServerToClientOps::MuzzleFlash
    } else if b == 2 {
        ServerToClientOps::MuzzleFlash2
    } else if b == 3 {
        ServerToClientOps::TempEntity
    } else if b == 4 {
        ServerToClientOps::Layout
    } else if b == 5 {
        ServerToClientOps::Inventory
    } else if b == 6 {
        ServerToClientOps::Nop
    } else if b == 7 {
        ServerToClientOps::Disconnect
    } else if b == 8 {
        ServerToClientOps::Reconnect
    } else if b == 9 {
        ServerToClientOps::Sound
    } else if b == 10 {
        ServerToClientOps::Print
    } else if b == 11 {
        ServerToClientOps::StuffText
    } else if b == 12 {
        ServerToClientOps::ServerData
    } else if b == 13 {
        ServerToClientOps::ConfigString
    } else if b == 14 {
        ServerToClientOps::SpawnBaseline
    } else if b == 15 {
        ServerToClientOps::CenterPrint
    } else if b == 16 {
        ServerToClientOps::Download
    } else if b == 17 {
        ServerToClientOps::PlayerInfo
    } else if b == 18 {
        ServerToClientOps::PacketEntities
    } else if b == 19 {
        ServerToClientOps::DeltaPacketEntities
    } else if b == 20 {
        ServerToClientOps::Frame
    } else if b == 21 {
        ServerToClientOps::ZPacket
    } else if b == 22 {
        ServerToClientOps::ZDownload
    } else if b == 23 {
        ServerToClientOps::Gamestate
    } else if b == 24 {
        ServerToClientOps::Setting
    } else {
        ServerToClientOps::Invalid
    }
}

impl ServerToClientOps {
    pub fn from_byte(b: u8) -> (r: ServerToClientOps)
        ensures
            r == op_of(b),
    {
        match b {
            0 => ServerToClientOps::Bad,
            1 => ServerToClientOps::MuzzleFlash,
            2 => ServerToClientOps::MuzzleFlash2,
            3 => ServerToClientOps::TempEntity,
            4 => ServerToClientOps::Layout,
            5 => ServerToClientOps::Inventory,
            6 => ServerToClientOps::Nop,
            7 => ServerToClientOps::Disconnect,
            8 => ServerToClientOps::Reconnect,
            9 => ServerToClientOps::Sound,
            10 => ServerToClientOps::Print,
            11 => ServerToClientOps::StuffText,
            12 => ServerToClientOps::ServerData,
            13 => ServerToClientOps::ConfigString,
            14 => ServerToClientOps::SpawnBaseline,
            15 => ServerToClientOps::CenterPrint,
            16 => ServerToClientOps::Download,
            17 => ServerToClientOps::PlayerInfo,
            18 => ServerToClientOps::PacketEntities,
            19 => ServerToClientOps::DeltaPacketEntities,
            20 => ServerToClientOps::Frame,
            21 => ServerToClientOps::ZPacket,
            22 => ServerToClientOps::ZDownload,
            23 => ServerToClientOps::Gamestate,
            24 => ServerToClientOps::Setting,
            _ => ServerToClientOps::Invalid,
        }
    }
}

/// What the decoder hands out for each command it understood.
#[derive(Clone, Debug)]
pub enum ClientEvent {
    Disconnect,
    Reconnect,
    Print(PrintLevel, Vec<u8>),
    StuffText(Vec<u8>),
    CenterPrint(Vec<u8>),
    ServerData(ServerDataMessage),
    ConfigString(u16, Vec<u8>),
    DeltaEntity(DeltaEntity),
}

/// A `ClientEvent` with its byte strings and names as sequences.
pub enum EventView {
    Disconnect,
    Reconnect,
    Print(PrintLevel, Seq<u8>),
    StuffText(Seq<u8>),
    CenterPrint(Seq<u8>),
    ServerData(ServerDataView),
    ConfigString(u16, Seq<u8>),
    DeltaEntity(DeltaEntity),
}

impl View for ClientEvent {
    type V = EventView;

    open spec fn view(&self) -> EventView {
        match self {
            ClientEvent::Disconnect => EventView::Disconnect,
            ClientEvent::Reconnect => EventView::Reconnect,
            ClientEvent::Print(level, text) => EventView::Print(*level, text@),
            ClientEvent::StuffText(text) => EventView::StuffText(text@),
            ClientEvent::CenterPrint(text) => EventView::CenterPrint(text@),
            ClientEvent::ServerData(m) => EventView::ServerData(m@),
            ClientEvent::ConfigString(index, value) => EventView::ConfigString(*index, value@),
            ClientEvent::DeltaEntity(d) => EventView::DeltaEntity(*d),
        }
    }
}

/// The command an event came from.
pub open spec fn event_op(e: EventView) -> ServerToClientOps {
    match e {
        EventView::Disconnect => ServerToClientOps::Disconnect,
        EventView::Reconnect => ServerToClientOps::Reconnect,
        EventView::Print(..) => ServerToClientOps::Print,
        EventView::StuffText(..) => ServerToClientOps::StuffText,
        EventView::CenterPrint(..) => ServerToClientOps::CenterPrint,
        EventView::ServerData(..) => ServerToClientOps::ServerData,
        EventView::ConfigString(..) => ServerToClientOps::ConfigString,
        EventView::DeltaEntity(..) => ServerToClientOps::SpawnBaseline,
    }
}

impl ClientEvent {
    /// The command this event came from, which its subscribers are keyed by.
    pub fn op(&self) -> (r: ServerToClientOps)
        ensures
            r == event_op(self@),
    {
        match self {
            ClientEvent::Disconnect => ServerToClientOps::Disconnect,
            ClientEvent::Reconnect => ServerToClientOps::Reconnect,
            ClientEvent::Print(..) => ServerToClientOps::Print,
            ClientEvent::StuffText(..) => ServerToClientOps::StuffText,
            ClientEvent::CenterPrint(..) => ServerToClientOps::CenterPrint,
            ClientEvent::ServerData(..) => ServerToClientOps::ServerData,
            ClientEvent::ConfigString(..) => ServerToClientOps::ConfigString,
            ClientEvent::DeltaEntity(..) => ServerToClientOps::SpawnBaseline,
        }
    }
}

} // verus!
