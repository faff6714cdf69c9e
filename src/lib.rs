//! Reassembles newline-delimited records from a chunked serial byte stream,
//! timestamps them, and relays operator input lines back to the device.

pub mod args;
pub mod error;
pub mod loops;
pub mod output;
pub mod records;
pub mod serial;
pub mod time_stamp;
