//! What the core needs from a display: select an input source, and — when the
//! display answers — ask which one it is showing.
//!
//! [`ddc`] holds the DDC/CI packets, the reply checks and the rules for
//! pairing and picking displays; [`capabilities`] reads the input sources a
//! display lists in its capabilities string. The I2C and registry edges that
//! move the bytes belong to the platform layer.

pub mod capabilities;
pub mod ddc;

use vstd::prelude::*;

verus! {

/// Why a display write did not happen.
#[derive(Debug)]
pub enum DisplayError {
    /// The display layer refused the write; the payload is for the log.
    Tool(String),
    /// The display did not answer in time.
    Timeout,
}

/// The text a display error reads as.
pub open spec fn display_error_text(e: &DisplayError) -> Seq<char> {
    match e {
        DisplayError::Tool(m) => m@,
        DisplayError::Timeout => "display did not answer in time"@,
    }
}

impl DisplayError {
    /// What the error says, for a report or the log.
    pub fn message(&self) -> (r: String)
        ensures
            r@ == display_error_text(self),
    {
        match self {
            DisplayError::Tool(m) => m.clone(),
            DisplayError::Timeout => "display did not answer in time".to_owned(),
        }
    }
}

} // verus!
