//! Peer ids as the network layer parses them from bytes.

use vstd::prelude::*;
use libp2p::PeerId;

verus! {

/// The canonical bytes of the peer id that `bytes` encode, or `None` when
/// they encode none (as `PeerId::from_bytes` decides).
pub uninterp spec fn peer_id_canonical(bytes: Seq<u8>) -> Option<Seq<u8>>;

/// Calls `libp2p::PeerId::from_bytes` and, when it succeeds, `PeerId::to_bytes`
/// on the result. Trusted: the result is the canonical form named
/// `peer_id_canonical` of the input, and a canonical form parses back to
/// itself (`to_bytes` writes the multihash that `from_bytes` reads back,
/// whole). Two parsed peer ids are equal exactly when their canonical bytes
/// are. Which byte strings parse is not stated.
#[verifier::external_body]
pub(crate) fn parse_peer_id(bytes: &[u8]) -> (r: Option<Vec<u8>>)
    ensures
        match r {
            Some(v) => peer_id_canonical(bytes@) == Some(v@),
            None => peer_id_canonical(bytes@) is None,
        },
        r matches Some(v) ==> peer_id_canonical(v@) == Some(v@),
{
    match PeerId::from_bytes(bytes) {
        Ok(p) => Some(p.to_bytes()),
        Err(_) => None,
    }
}

} // verus!
