use vstd::prelude::*;

verus! {

/// Signal of a cursor read past the end of its buffer.
#[derive(Debug, Clone, Copy, PartialEq, Eq, Structural)]
pub struct OutOfBounds;

/// The error type for ROS bag file reading and parsing.
#[derive(Debug, Clone, Copy, PartialEq, Eq, Structural)]
pub enum Error {
    InvalidHeader,
    InvalidRecord,
    UnsupportedVersion,
    UnsupportedCompression,
    OutOfBounds,
}

impl From<OutOfBounds> for Error {
    fn from(e: OutOfBounds) -> (r: Error)
        ensures
            r == Error::OutOfBounds,
    {
        Error::OutOfBounds
    }
}

impl vstd::std_specs::convert::FromSpecImpl<OutOfBounds> for Error {
    open spec fn obeys_from_spec() -> bool {
        true
    }

    open spec fn from_spec(v: OutOfBounds) -> Error {
        Error::OutOfBounds
    }
}

/// Human-readable description of an error.
pub open spec fn message_of(e: Error) -> Seq<char> {
    match e {
        Error::InvalidHeader => "rosbag::Error: invalid header"@,
        Error::InvalidRecord => "rosbag::Error: invalid record"@,
        Error::UnsupportedVersion => "rosbag::Error: unsupported version"@,
        Error::UnsupportedCompression => "rosbag::Error: unsupported compression type"@,
        Error::OutOfBounds => "rosbag::Error: out of bounds"@,
    }
}

impl Error {
    /// The error's description, as its `Display` form would print it.
    pub fn message(&self) -> (r: &'static str)
        ensures
            r@ == message_of(*self),
    {
        match self {
            Error::InvalidHeader => "rosbag::Error: invalid header",
            Error::InvalidRecord => "rosbag::Error: invalid record",
            Error::UnsupportedVersion => "rosbag::Error: unsupported version",
            Error::UnsupportedCompression => "rosbag::Error: unsupported compression type",
            Error::OutOfBounds => "rosbag::Error: out of bounds",
        }
    }
}

} // verus!
