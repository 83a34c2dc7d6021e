//! Messages of the **OPAQUE** authentication (aPAKE): the server
//! authenticates the client by password **without ever learning it**.
//!
//! The protocol steps run in the application layer, over `opaque-ke`; the
//! core holds the serialised messages and states they exchange, as bytes
//! (the canonical `opaque-ke` wire format).

use vstd::prelude::*;

verus! {

/// Outcome of the client's registration start.
pub struct ClientRegistrationStart {
    /// State the client keeps until `finish`.
    pub state: Vec<u8>,
    /// `RegistrationRequest` to send to the server.
    pub request: Vec<u8>,
}

/// Outcome of the client's login start.
pub struct ClientLoginStart {
    /// State the client keeps until `finish`.
    pub state: Vec<u8>,
    /// `CredentialRequest` to send to the server.
    pub request: Vec<u8>,
}

/// Outcome of the server's login start.
pub struct ServerLoginStart {
    /// State the server keeps until `finish`.
    pub state: Vec<u8>,
    /// `CredentialResponse` to send back to the client.
    pub response: Vec<u8>,
}

} // verus!
