//! What the core needs from an input device: read its host slots, move it.
//!
//! [`discovery`] decides what a scan lists and [`logitech`] which HID nodes a
//! configured device may be reached through; the HID++ conversations
//! themselves belong to the platform layer.

pub mod discovery;
pub mod logitech;

use vstd::prelude::*;

verus! {

/// Why a device operation did not happen.
#[derive(Debug)]
pub enum DeviceError {
    /// The device is not on this machine right now (another host owns it).
    NotFound,
    /// The device layer refused the operation; the payload is for the log.
    Tool(String),
    /// The device did not answer in time.
    Timeout,
}

/// The text a device error reads as.
pub open spec fn device_error_text(e: &DeviceError) -> Seq<char> {
    match e {
        DeviceError::NotFound => "device not present"@,
        DeviceError::Tool(m) => m@,
        DeviceError::Timeout => "device did not answer in time"@,
    }
}

impl DeviceError {
    /// What the error says, for a report or the log.
    pub fn message(&self) -> (r: String)
        ensures
            r@ == device_error_text(self),
    {
        match self {
            DeviceError::NotFound => "device not present".to_owned(),
            DeviceError::Tool(m) => m.clone(),
            DeviceError::Timeout => "device did not answer in time".to_owned(),
        }
    }
}

} // verus!
