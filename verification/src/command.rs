//! Commands accepted from the frontend to the client.

use vstd::prelude::*;

use crate::event::NetworkId;

verus! {

/// A command from the frontend to the IRC client.
#[derive(Clone, Debug)]
pub enum ClientCommand {
    /// Open a new connection to a network.
    Connect {
        /// Target network identifier.
        network: NetworkId,
        /// Hostname or IP.
        host: String,
        /// Port number.
        port: u16,
        /// Whether to use TLS.
        tls: bool,
        /// Desired nick.
        nick: Vec<u8>,
        /// Username for USER command.
        user: Vec<u8>,
        /// Realname for USER command.
        realname: Vec<u8>,
    },
    /// Disconnect from a network.
    Disconnect {
        /// Target network.
        network: NetworkId,
    },
    /// Send a raw IRC line.
    SendRaw {
        /// Target network.
        network: NetworkId,
        /// Raw IRC line bytes.
        line: Vec<u8>,
    },
    /// Send a PRIVMSG.
    SendPrivmsg {
        /// Target network.
        network: NetworkId,
        /// Target channel or nick.
        target: Vec<u8>,
        /// Message text.
        text: Vec<u8>,
    },
    /// Send a NOTICE.
    SendNotice {
        /// Target network.
        network: NetworkId,
        /// Target channel or nick.
        target: Vec<u8>,
        /// Notice text.
        text: Vec<u8>,
    },
    /// Join a channel.
    Join {
        /// Target network.
        network: NetworkId,
        /// Channel name.
        channel: Vec<u8>,
    },
    /// Part from a channel.
    Part {
        /// Target network.
        network: NetworkId,
        /// Channel name.
        channel: Vec<u8>,
        /// Optional part reason.
        reason: Option<Vec<u8>>,
    },
    /// Change nick.
    ChangeNick {
        /// Target network.
        network: NetworkId,
        /// New nick.
        nick: Vec<u8>,
    },
    /// Set channel topic.
    SetTopic {
        /// Target network.
        network: NetworkId,
        /// Channel name.
        channel: Vec<u8>,
        /// New topic.
        topic: Vec<u8>,
    },
    /// Quit from a network.
    Quit {
        /// Target network.
        network: NetworkId,
        /// Optional quit reason.
        reason: Option<Vec<u8>>,
    },
}

} // verus!
