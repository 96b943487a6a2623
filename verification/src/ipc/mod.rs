//! The streaming protocol: length-framed headers over a byte channel.

pub mod framing;
pub mod message_reader;
