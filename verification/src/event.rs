//! Events reported by the IRC client backend to its frontends.

use vstd::prelude::*;

verus! {

/// Identifies one configured network connection of the client.
#[derive(Clone, Copy, Debug, PartialEq, Eq, Structural, Hash)]
pub struct NetworkId(pub u64);

/// An event from the IRC client to its frontend.
#[derive(Clone, Debug)]
pub enum ClientEvent {
    /// The transport to a network is up.
    Connected {
        /// The network.
        network: NetworkId,
    },
    /// Registration completed under `nick`.
    Registered {
        /// The network.
        network: NetworkId,
        /// The nick the server accepted.
        nick: Vec<u8>,
    },
    /// A PRIVMSG arrived.
    Message {
        /// The network.
        network: NetworkId,
        /// Channel or query the message belongs to.
        target: Vec<u8>,
        /// Sender nick.
        from: Vec<u8>,
        /// Message text.
        text: Vec<u8>,
    },
    /// A NOTICE arrived.
    Notice {
        /// The network.
        network: NetworkId,
        /// Channel or query the notice belongs to.
        target: Vec<u8>,
        /// Sender nick.
        from: Vec<u8>,
        /// Notice text.
        text: Vec<u8>,
    },
    /// Someone joined a channel.
    Join {
        /// The network.
        network: NetworkId,
        /// The channel.
        channel: Vec<u8>,
        /// Who joined.
        nick: Vec<u8>,
    },
    /// Someone left a channel.
    Part {
        /// The network.
        network: NetworkId,
        /// The channel.
        channel: Vec<u8>,
        /// Who left.
        nick: Vec<u8>,
        /// The part message, if any.
        reason: Option<Vec<u8>>,
    },
    /// A channel topic changed.
    TopicChange {
        /// The network.
        network: NetworkId,
        /// The channel.
        channel: Vec<u8>,
        /// The new topic.
        topic: Vec<u8>,
    },
    /// The connection to a network was lost.
    Disconnected {
        /// The network.
        network: NetworkId,
        /// Why.
        reason: String,
    },
    /// Someone changed nick.
    NickChange {
        /// The network.
        network: NetworkId,
    },
    /// Someone quit.
    Quit {
        /// The network.
        network: NetworkId,
    },
    /// A numeric reply arrived.
    Numeric {
        /// The network.
        network: NetworkId,
    },
    /// The backend hit an error.
    Error {
        /// The network.
        network: NetworkId,
    },
}

} // verus!
