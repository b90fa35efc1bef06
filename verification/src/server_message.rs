//! The payload variants a server can put into a [`ServerMessage`](crate::messages::ServerMessage);
//! today only the debug text message.
use vstd::prelude::*;

use crate::messages::DebugMessage;

verus! {

/// The one-of payload of a server message.
pub enum Message {
    DebugMessage(DebugMessage),
}

} // verus!
