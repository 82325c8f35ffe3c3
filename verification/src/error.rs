//! Error kinds signalled by a connection's lifecycle.

use vstd::prelude::*;

verus! {

/// Why a connection stopped serving.
#[derive(Clone, Copy, Debug, PartialEq, Eq, Structural)]
pub enum Error {
    /// The transport could not be established.
    ConnectFailed,
    /// The stream ended or failed while the request loop was running.
    Lost,
    /// The keepalive deadline was reached; the expected end of a healthy connection.
    AliveTimeout,
}

} // verus!
