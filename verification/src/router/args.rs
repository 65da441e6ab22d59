//! What the router is started with.
use vstd::prelude::*;

verus! {

/// A host and a port, as text.
#[derive(Debug)]
pub struct SocketAddress(pub String);

/// Where the router listens.
#[derive(Debug)]
pub struct RouterArgs {
    /// Where publishers connect.
    pub publish: SocketAddress,
    /// Where subscribers connect.
    pub subscribe: SocketAddress,
}

} // verus!
