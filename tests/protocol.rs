use near_chain::network_protocol::{
    handshake_v2_version, handshake_version, read_u32_le, Edge, HandshakeDecodeError, HandshakeFailureReason, IbfBox,
    PartialSync, RoutingState, RoutingSyncV2, RoutingVersion2, ValidIBFLevel,
};
use near_chain::text::str_eq;

#[test]
fn str_eq_compares_bytes() {
    assert!(str_eq("gas", "gas"));
    assert!(!str_eq("gas", "gaz"));
    assert!(!str_eq("gas", "gas_price"));
    assert!(str_eq("", ""));
}

#[test]
fn reads_little_endian_u32() {
    assert_eq!(read_u32_le(&[0x01, 0x02, 0x03, 0x04], 0), 0x0403_0201);
    assert_eq!(read_u32_le(&[9, 0xff, 0xff, 0xff, 0xff], 1), u32::MAX);
}

#[test]
fn handshake_version_gate() {
    let mut buf = 40u32.to_le_bytes().to_vec();
    buf.extend_from_slice(&[7, 7, 7]);
    assert_eq!(handshake_version(&buf, 34, 45), Ok(40));
    assert_eq!(handshake_version(&[1, 2, 3], 34, 45), Err(HandshakeDecodeError::UnexpectedLength));
    let old = 20u32.to_le_bytes();
    assert_eq!(
        handshake_version(&old, 34, 45),
        Err(HandshakeDecodeError::Failure(HandshakeFailureReason::ProtocolVersionMismatch {
            version: 20,
            oldest_supported_version: 20,
        }))
    );
}

#[test]
fn handshake_v2_version_gate() {
    let mut buf = 50u32.to_le_bytes().to_vec();
    buf.extend_from_slice(&30u32.to_le_bytes());
    assert_eq!(
        handshake_v2_version(&buf, 34, 45),
        Err(HandshakeDecodeError::Failure(HandshakeFailureReason::ProtocolVersionMismatch {
            version: 50,
            oldest_supported_version: 30,
        }))
    );
    let mut ok = 38u32.to_le_bytes().to_vec();
    ok.extend_from_slice(&34u32.to_le_bytes());
    assert_eq!(handshake_v2_version(&ok, 34, 45), Ok(38));
    assert_eq!(handshake_v2_version(&ok[..7], 34, 45), Err(HandshakeDecodeError::UnexpectedLength));
}

#[test]
fn routing_sync_values() {
    let sync = RoutingSyncV2::Version2(RoutingVersion2 {
        known_edges: 2,
        seed: 11,
        edges: vec![Edge { peer0: 1, peer1: 2, nonce: 3 }],
        routing_state: RoutingState::PartialSync(PartialSync {
            ibf_level: ValidIBFLevel(10),
            ibf: vec![IbfBox { xor_elem: 5, xor_hash: 6 }],
        }),
    });
    assert_eq!(sync.clone(), sync);
    assert_ne!(RoutingState::Done, RoutingState::RequestMissingEdges(vec![1]));
}
