use tilephys::{decode_header, HeaderError, PacketHeader, PacketType};

#[test]
fn decodes_valid_header() {
    let h = [0x01, b'P', b'K', b'G', 0x00, 0x00, 0x01, 0x02];
    assert_eq!(
        decode_header(&h),
        Ok(PacketHeader { packet_type: PacketType::EntitiesFrameData, payload_len: 258 })
    );
    let h = [0x02, b'P', b'K', b'G', 0x01, 0x00, 0x00, 0x00];
    assert_eq!(
        decode_header(&h),
        Ok(PacketHeader { packet_type: PacketType::ChunkData, payload_len: 16_777_216 })
    );
}

#[test]
fn refuses_unknown_packet_type() {
    let h = [0x07, b'P', b'K', b'G', 0, 0, 0, 4];
    assert_eq!(decode_header(&h), Err(HeaderError::UnknownPacketType));
    assert_eq!(HeaderError::UnknownPacketType.message(), "unknown packet type");
}

#[test]
fn refuses_bad_signature() {
    let h = [0x01, b'P', b'K', b'X', 0, 0, 0, 4];
    assert_eq!(decode_header(&h), Err(HeaderError::InvalidSignature));
    assert_eq!(HeaderError::InvalidSignature.message(), "Packet signature invalid");
}

#[test]
fn packet_type_from_byte() {
    assert_eq!(PacketType::try_from_byte(1), Some(PacketType::EntitiesFrameData));
    assert_eq!(PacketType::try_from_byte(2), Some(PacketType::ChunkData));
    assert_eq!(PacketType::try_from_byte(0), None);
}
