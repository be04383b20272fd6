//! Control-plane client.

use vstd::prelude::*;

use crate::control::messages::Response;

verus! {

/// Thin handle over a Unix socket. A call opens a fresh connection, because daemons handle one
/// request at a time and connection setup is essentially free locally.
#[derive(Debug, Clone)]
pub struct ControlClient {
    path: String,
}

impl ControlClient {
    /// The path the client connects to.
    pub closed spec fn target(self) -> Seq<char> {
        self.path@
    }

    /// Construct a client targeting `path`.
    pub fn new(path: &str) -> (client: ControlClient)
        ensures
            client.target() == path@,
    {
        ControlClient { path: path.to_owned() }
    }

    /// Path the client connects to.
    pub fn path(&self) -> (path: &str)
        ensures
            path@ == self.target(),
    {
        self.path.as_str()
    }

    /// Whether the reply to a ping shows that a daemon answered at all (`None`: the call failed).
    pub fn alive(reply: &Option<Response>) -> (answered: bool)
        ensures
            answered == (reply matches Some(Response::Pong { .. })),
    {
        match reply {
            Some(Response::Pong { .. }) => true,
            _ => false,
        }
    }
}

/// A daemon counts as alive where it answered a ping, and only there; and a client goes where it was
/// told to.
pub proof fn law_who_is_alive(
    reply: Option<Response>,
    answered: bool,
    to: &str,
    client: ControlClient,
    path: &str,
)
    requires
        call_ensures(ControlClient::alive, (&reply,), answered),
        call_ensures(ControlClient::new, (to,), client),
        call_ensures(ControlClient::path, (&client,), path),
    ensures
        answered <==> (reply matches Some(r) && r is Pong),
        path@ == to@,
{
}

} // verus!
