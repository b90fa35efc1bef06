//! The payload variants a client can put into a [`ClientMessage`](crate::messages::ClientMessage);
//! today only the debug text message.
use vstd::prelude::*;

use crate::messages::DebugMessage;

verus! {

/// The one-of payload of a client message.
pub enum Message {
    DebugMessage(DebugMessage),
}

} // verus!
