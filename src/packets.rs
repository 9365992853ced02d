use vstd::prelude::*;

verus! {

/// The kinds of packet on the wire, by their first header byte.
#[derive(Clone, Copy, Debug, PartialEq, Eq, Structural)]
pub enum PacketType {
    EntitiesFrameData,
    ChunkData,
}

/// Why a packet header was refused.
#[derive(Clone, Copy, Debug, PartialEq, Eq, Structural)]
pub enum HeaderError {
    UnknownPacketType,
    InvalidSignature,
}

/// A decoded header: the packet's type and the length of its payload.
#[derive(Clone, Copy, Debug, PartialEq, Eq, Structural)]
pub struct PacketHeader {
    pub packet_type: PacketType,
    pub payload_len: u32,
}

pub open spec fn packet_type_of(b: u8) -> Option<PacketType> {
    if b == 1 {
        Some(PacketType::EntitiesFrameData)
    } else if b == 2 {
        Some(PacketType::ChunkData)
    } else {
        None
    }
}

/// Four bytes read as a big-endian unsigned integer.
pub open spec fn be_u32(b0: u8, b1: u8, b2: u8, b3: u8) -> int {
    b0 * 16777216 + b1 * 65536 + b2 * 256 + b3
}

/// The header `type | 'P' 'K' 'G' | payload length (big endian)`.
pub open spec fn header_of(h: Seq<u8>) -> Result<PacketHeader, HeaderError> {
    match packet_type_of(h[0]) {
        None => Err(HeaderError::UnknownPacketType),
        Some(t) => if h[1] == 0x50u8 && h[2] == 0x4bu8 && h[3] == 0x47u8 {
            Ok(PacketHeader { packet_type: t, payload_len: be_u32(h[4], h[5], h[6], h[7]) as u32 })
        } else {
            Err(HeaderError::InvalidSignature)
        },
    }
}

impl PacketType {
    /// The packet type that byte `b` stands for: `0x01` or `0x02`.
    pub fn try_from_byte(b: u8) -> (r: Option<PacketType>)
        ensures
            r == packet_type_of(b),
    {
        if b == 1 {
            Some(PacketType::EntitiesFrameData)
        } else if b == 2 {
            Some(PacketType::ChunkData)
        } else {
            None
        }
    }
}

impl HeaderError {
    /// The text that describes the error.
    pub fn message(&self) -> (r: &'static str)
        ensures
            *self == HeaderError::UnknownPacketType ==> r@ == "unknown packet type"@,
            *self == HeaderError::InvalidSignature ==> r@ == "Packet signature invalid"@,
    {
        proof {
            reveal_strlit("unknown packet type");
            reveal_strlit("Packet signature invalid");
        }
        match self {
            HeaderError::UnknownPacketType => "unknown packet type",
            HeaderError::InvalidSignature => "Packet signature invalid",
        }
    }
}

/// Decodes the eight header bytes of a packet.
pub fn decode_header(header_buf: &[u8; 8]) -> (r: Result<PacketHeader, HeaderError>)
    ensures
        r == header_of(header_buf@),
{
    let ptype = match PacketType::try_from_byte(header_buf[0]) {
        Some(t) => t,
        None => return Err(HeaderError::UnknownPacketType),
    };
    if header_buf[1] != 0x50u8 || header_buf[2] != 0x4bu8 || header_buf[3] != 0x47u8 {
        return Err(HeaderError::InvalidSignature);
    }
    let payload_len = header_buf[4] as u32 * 16777216 + header_buf[5] as u32 * 65536 + header_buf[6] as u32 * 256
        + header_buf[7] as u32;
    Ok(PacketHeader { packet_type: ptype, payload_len })
}

} // verus!
