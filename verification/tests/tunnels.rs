use plug2proxy::framing::{encode_frame, read_frame, FrameRead};
use plug2proxy::qomt_tunnel::bytes_packet::{BytesPacket, BytesPacketRead};
use plug2proxy::qomt_tunnel::mt_connections::{
    MtConnectionsId, MtConnectionsMagic, MtConnectionsRequestHead, MtConnectionsRequestHeadData,
    MtConnectionsResponseHead, MtConnectionsResponseHeadData,
    MT_CONNECTIONS_REQUEST_HEAD_BUFFER_SIZE, MT_CONNECTIONS_RESPONSE_HEAD_BUFFER_SIZE,
};
use plug2proxy::quic_connection::config::MAX_DATAGRAM_SIZE;
use plug2proxy::quic_connection::packet::{
    MtConnectionsPacketMode, PacketError, PacketRead, QuicBytesPacket,
};

#[test]
fn test_postcard_serialization() {
    let id = MtConnectionsId::new();

    let request_head_bytes = MtConnectionsRequestHead {
        magic: MtConnectionsMagic,
        data: MtConnectionsRequestHeadData::Create,
    }
    .to_bytes();
    assert!(request_head_bytes.len() <= MT_CONNECTIONS_REQUEST_HEAD_BUFFER_SIZE);

    let response_head_bytes = MtConnectionsResponseHead {
        magic: MtConnectionsMagic,
        data: MtConnectionsResponseHeadData::Created(id),
    }
    .to_bytes();
    assert!(response_head_bytes.len() <= MT_CONNECTIONS_RESPONSE_HEAD_BUFFER_SIZE);

    let request_head = MtConnectionsRequestHead::from_bytes(&request_head_bytes).unwrap();
    let response_head = MtConnectionsResponseHead::from_bytes(&response_head_bytes).unwrap();

    assert_eq!(request_head.data, MtConnectionsRequestHeadData::Create);
    assert_eq!(
        response_head.data,
        MtConnectionsResponseHeadData::Created(id)
    );
}

#[test]
fn heads_begin_with_the_magic_bytes() {
    let id = MtConnectionsId { bytes: [9; 16] };
    let bytes = MtConnectionsRequestHead {
        magic: MtConnectionsMagic,
        data: MtConnectionsRequestHeadData::Extend(id),
    }
    .to_bytes();
    assert_eq!(bytes[..4], *b"QomT");
    assert_eq!(bytes[4], 1);
    assert_eq!(bytes[bytes.len() - 16..], [9; 16]);
    assert_eq!(
        MtConnectionsRequestHead::from_bytes(&bytes).unwrap().data,
        MtConnectionsRequestHeadData::Extend(id)
    );

    let mut wrong = bytes.clone();
    wrong[0] = b'q';
    assert!(MtConnectionsRequestHead::from_bytes(&wrong).is_none());
    assert!(MtConnectionsRequestHead::from_bytes(&bytes[..bytes.len() - 1]).is_none());
}

#[test]
fn response_heads_round_trip() {
    for data in [
        MtConnectionsResponseHeadData::Extended,
        MtConnectionsResponseHeadData::AlreadyClosed,
    ] {
        let bytes = MtConnectionsResponseHead {
            magic: MtConnectionsMagic,
            data,
        }
        .to_bytes();
        assert_eq!(
            MtConnectionsResponseHead::from_bytes(&bytes).unwrap().data,
            data
        );
    }
}

#[test]
fn test_packet_frame_roundtrip() {
    let payload = vec![0xab; MAX_DATAGRAM_SIZE - 8];

    let mut stream = QuicBytesPacket::write_packet(None, payload.clone().into()).unwrap();
    stream.extend_from_slice(&QuicBytesPacket::write_packet(None, vec![].into()).unwrap());

    let read = QuicBytesPacket::read_next_packet(&stream, true, MtConnectionsPacketMode::Legacy);
    assert_eq!(
        read,
        Ok(PacketRead::Packet(None, payload.clone().into()))
    );

    let rest = &stream[4 + payload.len()..];
    let read = QuicBytesPacket::read_next_packet(rest, true, MtConnectionsPacketMode::Legacy);
    assert_eq!(read, Ok(PacketRead::Packet(None, vec![].into())));

    let read = QuicBytesPacket::read_next_packet(&rest[4..], true, MtConnectionsPacketMode::Legacy);
    assert_eq!(read, Ok(PacketRead::End));
}

#[test]
fn test_sequenced_packet_frame_roundtrip() {
    let payload = vec![0xcd; MAX_DATAGRAM_SIZE - 8];

    let stream = QuicBytesPacket::write_packet(Some(42), payload.clone().into()).unwrap();
    let read = QuicBytesPacket::read_next_packet(&stream, false, MtConnectionsPacketMode::Sequenced);
    assert_eq!(read, Ok(PacketRead::Packet(Some(42), payload.into())));
}

#[test]
fn sequenced_packets_need_their_number() {
    let stream = QuicBytesPacket::write_packet(None, vec![1, 2, 3].into()).unwrap();
    assert_eq!(
        QuicBytesPacket::read_next_packet(&stream, true, MtConnectionsPacketMode::Sequenced),
        Err(PacketError::InvalidData)
    );
    assert_eq!(
        QuicBytesPacket::write_packet(Some(1), vec![0; MAX_DATAGRAM_SIZE - 7].into()),
        Err(PacketError::InvalidInput)
    );
}

#[test]
fn test_packet_frame_rejects_oversized_length() {
    let stream = ((MAX_DATAGRAM_SIZE + 1) as u32).to_be_bytes();

    assert_eq!(
        QuicBytesPacket::read_next_packet(&stream, false, MtConnectionsPacketMode::Legacy),
        Err(PacketError::InvalidData)
    );
}

#[test]
fn test_packet_frame_rejects_oversized_write() {
    assert_eq!(
        QuicBytesPacket::write_packet(None, vec![0; MAX_DATAGRAM_SIZE + 1].into()),
        Err(PacketError::InvalidInput)
    );
}

#[test]
fn test_packet_frame_reports_truncated_frames() {
    assert_eq!(
        QuicBytesPacket::read_next_packet(&[0, 0], true, MtConnectionsPacketMode::Legacy),
        Err(PacketError::UnexpectedEof)
    );
    assert_eq!(
        QuicBytesPacket::read_next_packet(
            &[0, 0, 0, 4, 1, 2],
            true,
            MtConnectionsPacketMode::Legacy
        ),
        Err(PacketError::UnexpectedEof)
    );
}

#[test]
fn partial_frames_ask_for_more() {
    let frame = encode_frame(b"packet");
    for length in 0..frame.len() {
        assert_eq!(
            read_frame(&frame[..length], false, 100),
            FrameRead::NeedMoreData
        );
        let cut = read_frame(&frame[..length], true, 100);
        if length == 0 {
            assert_eq!(cut, FrameRead::End);
        } else {
            assert_eq!(cut, FrameRead::Truncated);
        }
    }
    assert_eq!(
        read_frame(&frame, false, 100),
        FrameRead::Packet(b"packet".to_vec())
    );
    assert_eq!(read_frame(&frame, false, 5), FrameRead::TooLarge(6));
}

#[test]
fn bytes_packets_round_trip() {
    let bytes = BytesPacket::write_packet(BytesPacket::from(vec![1, 2, 3]));
    assert_eq!(bytes, [0, 0, 0, 3, 1, 2, 3]);
    assert_eq!(
        BytesPacket::read_next_packet(&bytes, false),
        BytesPacketRead::Packet(BytesPacket::from(vec![1, 2, 3]))
    );
    assert_eq!(
        BytesPacket::read_next_packet(&bytes[..5], false),
        BytesPacketRead::NeedMoreData
    );
    assert_eq!(
        BytesPacket::read_next_packet(&bytes[..5], true),
        BytesPacketRead::End
    );
}
