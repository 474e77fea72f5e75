use vstd::prelude::*;
use crate::block::CryptoHash;

verus! {

/// An edge of the peer graph: two peer ids and the nonce of its latest
/// update.
#[derive(Clone, Copy, Debug, PartialEq, Eq, Structural)]
pub struct Edge {
    pub peer0: u64,
    pub peer1: u64,
    pub nonce: u64,
}

/// Level of an invertible Bloom filter exchanged during routing sync.
#[derive(Clone, Copy, Debug, PartialEq, Eq, Structural)]
pub struct ValidIBFLevel(pub u64);

/// One cell of an invertible Bloom filter.
#[derive(Clone, Copy, Debug, PartialEq, Eq, Structural)]
pub struct IbfBox {
    pub xor_elem: u64,
    pub xor_hash: u64,
}

#[derive(Clone, Debug, PartialEq, Eq)]
pub struct PartialSync {
    pub ibf_level: ValidIBFLevel,
    pub ibf: Vec<IbfBox>,
}

#[derive(Clone, Debug, PartialEq, Eq)]
pub enum RoutingState {
    PartialSync(PartialSync),
    RequestAllEdges,
    Done,
    RequestMissingEdges(Vec<u64>),
    InitializeIbf,
}

#[derive(Clone, Debug, PartialEq, Eq)]
pub struct RoutingVersion2 {
    pub known_edges: u64,
    pub seed: u64,
    pub edges: Vec<Edge>,
    pub routing_state: RoutingState,
}

#[derive(Clone, Debug, PartialEq, Eq)]
pub enum RoutingSyncV2 {
    Version2(RoutingVersion2),
}

/// Identity of a chain: its name and the hash of its genesis block.
#[derive(Clone, Debug, PartialEq, Eq)]
pub struct GenesisId {
    pub chain_id: String,
    pub hash: CryptoHash,
}

#[derive(Clone, Debug, PartialEq, Eq)]
pub enum HandshakeFailureReason {
    ProtocolVersionMismatch { version: u32, oldest_supported_version: u32 },
    GenesisMismatch(GenesisId),
    InvalidTarget,
}

/// Why a handshake payload is refused before its fields are decoded.
#[derive(Clone, Debug, PartialEq, Eq)]
pub enum HandshakeDecodeError {
    /// The payload is shorter than its version prefix.
    UnexpectedLength,
    /// The peer speaks a protocol version outside the supported range.
    Failure(HandshakeFailureReason),
}

/// The little-endian `u32` in the four bytes of `b` from `at` on.
pub open spec fn le_u32(b: Seq<u8>, at: int) -> int {
    b[at] as int + 256 * (b[at + 1] as int) + 65536 * (b[at + 2] as int) + 16777216 * (b[at + 3] as int)
}

pub fn read_u32_le(buf: &[u8], at: usize) -> (r: u32)
    requires
        at + 4 <= buf@.len(),
    ensures
        r == le_u32(buf@, at as int),
{
    let b0 = buf[at] as u32;
    let b1 = buf[at + 1] as u32;
    let b2 = buf[at + 2] as u32;
    let b3 = buf[at + 3] as u32;
    assert(b1 * 256 <= 65280 && b2 * 65536 <= 16711680 && b3 * 16777216 <= 4278190080) by (nonlinear_arith)
        requires
            b1 <= 255,
            b2 <= 255,
            b3 <= 255,
    ;
    b0 + b1 * 256 + b2 * 65536 + b3 * 16777216
}

/// The result of the version gate, given the version and oldest supported
/// version that the peer's payload declares.
pub open spec fn version_gate(version: u32, declared_oldest: u32, oldest: u32, current: u32) -> Result<u32, HandshakeDecodeError> {
    if oldest <= version && version <= current {
        Ok(version)
    } else {
        Err(HandshakeDecodeError::Failure(
            HandshakeFailureReason::ProtocolVersionMismatch { version, oldest_supported_version: declared_oldest },
        ))
    }
}

/// The version gate of the current handshake layout: the payload opens with
/// the peer's protocol version, which must lie in `oldest..=current`. A
/// refusal reports that version in both fields.
pub fn handshake_version(buf: &[u8], oldest: u32, current: u32) -> (r: Result<u32, HandshakeDecodeError>)
    ensures
        buf@.len() < 4 ==> r == Err::<u32, HandshakeDecodeError>(HandshakeDecodeError::UnexpectedLength),
        buf@.len() >= 4 ==> ({
            let v = le_u32(buf@, 0) as u32;
            r == version_gate(v, v, oldest, current)
        }),
{
    if buf.len() < 4 {
        return Err(HandshakeDecodeError::UnexpectedLength);
    }
    let version = read_u32_le(buf, 0);
    if oldest <= version && version <= current {
        Ok(version)
    } else {
        Err(HandshakeDecodeError::Failure(
            HandshakeFailureReason::ProtocolVersionMismatch { version, oldest_supported_version: version },
        ))
    }
}

/// The version gate of the earlier handshake layout: the payload opens with
/// the peer's protocol version and its oldest supported version; the first
/// must lie in `oldest..=current`.
pub fn handshake_v2_version(buf: &[u8], oldest: u32, current: u32) -> (r: Result<u32, HandshakeDecodeError>)
    ensures
        buf@.len() < 8 ==> r == Err::<u32, HandshakeDecodeError>(HandshakeDecodeError::UnexpectedLength),
        buf@.len() >= 8 ==> r == version_gate(le_u32(buf@, 0) as u32, le_u32(buf@, 4) as u32, oldest, current),
{
    if buf.len() < 8 {
        return Err(HandshakeDecodeError::UnexpectedLength);
    }
    let version = read_u32_le(buf, 0);
    let oldest_supported_version = read_u32_le(buf, 4);
    if oldest <= version && version <= current {
        Ok(version)
    } else {
        Err(HandshakeDecodeError::Failure(
            HandshakeFailureReason::ProtocolVersionMismatch { version, oldest_supported_version },
        ))
    }
}

} // verus!
