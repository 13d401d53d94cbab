//! The hello handshake: the first frame pair on every new connection
//! establishes wire-version compatibility.
//!
//! The client sends `Hello { high_version: WIRE_VERSION, low_version:
//! OLDEST_COMPATIBLE_VERSION }` and awaits the server's `Hello { low, high }`.
//! The connection is healthy exactly when `low <= WIRE_VERSION <= high`.

use vstd::prelude::*;

use crate::commands::{WireCommand, WireCommandView};

verus! {

/// The wire-protocol version this client speaks.
pub const WIRE_VERSION: i32 = 5;

/// The oldest wire-protocol version this client still accepts.
pub const OLDEST_COMPATIBLE_VERSION: i32 = 5;

/// Why a handshake failed.
#[derive(Clone, Copy, Debug, PartialEq, Eq, Structural)]
pub enum HandshakeError {
    /// The server's advertised version range does not contain ours. Carries
    /// both sides' versions: ours, then the server's.
    WrongHelloVersion {
        wire_version: i32,
        oldest_compatible: i32,
        wire_version_received: i32,
        oldest_compatible_received: i32,
    },
    /// The first reply was not a `Hello` at all.
    WrongReply,
}

/// A client at `client_version` accepts a server advertising `[low, high]`
/// exactly when `low <= client_version <= high`.
pub open spec fn hello_compatible(client_version: i32, low: i32, high: i32) -> bool {
    low <= client_version && client_version <= high
}

/// The hello frame the client opens every connection with.
pub fn client_hello() -> (r: WireCommand)
    ensures
        r@ == (WireCommandView::Hello {
            high_version: WIRE_VERSION,
            low_version: OLDEST_COMPATIBLE_VERSION,
        }),
{
    WireCommand::Hello { high_version: WIRE_VERSION, low_version: OLDEST_COMPATIBLE_VERSION }
}

/// Whether this client accepts a server advertising `[low, high]`.
pub fn hello_accepts(low: i32, high: i32) -> (r: bool)
    ensures
        r == hello_compatible(WIRE_VERSION, low, high),
{
    low <= WIRE_VERSION && WIRE_VERSION <= high
}

/// Judges the server's first reply: accepts a `Hello` whose range contains
/// `WIRE_VERSION` and rejects every other reply, carrying both sides'
/// versions in the error.
pub fn check_hello_reply(reply: &WireCommand) -> (r: Result<(), HandshakeError>)
    ensures
        (match reply@ {
            WireCommandView::Hello { high_version, low_version } => {
                if hello_compatible(WIRE_VERSION, low_version, high_version) {
                    r == Ok::<(), HandshakeError>(())
                } else {
                    r == Err::<(), HandshakeError>(
                        HandshakeError::WrongHelloVersion {
                            wire_version: WIRE_VERSION,
                            oldest_compatible: OLDEST_COMPATIBLE_VERSION,
                            wire_version_received: high_version,
                            oldest_compatible_received: low_version,
                        },
                    )
                }
            },
            _ => r == Err::<(), HandshakeError>(HandshakeError::WrongReply),
        }),
{
    match reply {
        WireCommand::Hello { high_version, low_version } => {
            if hello_accepts(*low_version, *high_version) {
                Ok(())
            } else {
                Err(
                    HandshakeError::WrongHelloVersion {
                        wire_version: WIRE_VERSION,
                        oldest_compatible: OLDEST_COMPATIBLE_VERSION,
                        wire_version_received: *high_version,
                        oldest_compatible_received: *low_version,
                    },
                )
            }
        },
        _ => Err(HandshakeError::WrongReply),
    }
}

} // verus!
