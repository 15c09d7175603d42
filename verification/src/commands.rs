//! The commands of the command line tool, as the tool parses them.
use vstd::prelude::*;

verus! {

/// Commands on boards.
#[derive(Clone, PartialEq, Eq, Debug)]
pub enum BoardCommands {
    /// Create a new board, with the creator's nickname if given.
    Create { name: String, nickname: Option<String> },
    /// List all boards.
    List,
    /// Join a board.
    Join { board_id: String },
    /// Leave a board.
    Leave { board_id: String },
    /// Publish a board to the network again, so that this node serves it.
    Republish { board_id: String },
    /// Update a board's configuration (owner only): the number of bans
    /// remembered.
    Config { board_id: String, max_bans: Option<usize> },
}

/// Commands on members.
#[derive(Clone, PartialEq, Eq, Debug)]
pub enum MemberCommands {
    /// List the members of a board.
    List { board_id: String },
    /// Set your nickname in a board.
    SetNickname { board_id: String, nickname: String },
    /// Ban a member (by the short id from the member list) from a board.
    Ban { board_id: String, member_id: String },
}

/// The debugging commands.
#[derive(Clone, PartialEq, Eq, Debug)]
pub enum DebugCommands {
    /// A raw contract GET of a board.
    ContractGet { board_owner_key: String },
    /// A test of the WebSocket connection.
    Websocket,
    /// The contract key of a board.
    ContractKey { board_owner_key: String },
    /// A summary of a board's state.
    BoardState { board_owner_key: String },
    /// The bans of a board.
    Bans { board_owner_key: String },
    /// The configuration of a board.
    Config { board_owner_key: String },
}

} // verus!
