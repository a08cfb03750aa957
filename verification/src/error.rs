//! Link errors, shared by the drivers and the transports.
use crate::text;
use crate::text::push_dec;
use vstd::prelude::*;

verus! {

/// Why a link operation failed.
#[derive(Debug, Clone, Copy, PartialEq, Eq, Structural)]
pub enum LinkError {
    /// The underlying device failed.
    Io,
    /// A frame came with a wrong checksum.
    Crc,
    /// No answer came in time.
    Timeout,
    /// The device rejected a command, with its status code.
    Nak(u8),
    /// A frame does not fit the buffer.
    TooLarge,
    /// A frame type is not known.
    UnknownType,
    /// The other end is gone.
    Closed,
}

/// What is shown for a link error.
pub open spec fn link_error_text(e: LinkError) -> Seq<char> {
    match e {
        LinkError::Io => "link IO error"@,
        LinkError::Crc => "frame CRC mismatch"@,
        LinkError::Timeout => "link timeout"@,
        LinkError::Nak(status) => "MCU rejected command (status "@ + text::dec(status as nat)
            + ")"@,
        LinkError::TooLarge => "frame too large for buffer"@,
        LinkError::UnknownType => "unknown frame type"@,
        LinkError::Closed => "link closed"@,
    }
}

impl LinkError {
    /// What is shown for this error.
    pub fn message(&self) -> (s: String)
        ensures
            s@ == link_error_text(*self),
    {
        match self {
            Self::Io => "link IO error".to_owned(),
            Self::Crc => "frame CRC mismatch".to_owned(),
            Self::Timeout => "link timeout".to_owned(),
            Self::Nak(status) => {
                let mut s: String = "MCU rejected command (status ".to_owned();
                push_dec(&mut s, *status as u128);
                s.push_str(")");
                s
            },
            Self::TooLarge => "frame too large for buffer".to_owned(),
            Self::UnknownType => "unknown frame type".to_owned(),
            Self::Closed => "link closed".to_owned(),
        }
    }
}

} // verus!
