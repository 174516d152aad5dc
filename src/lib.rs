//! Receiving side of a datagram file transfer: a codec that turns raw
//! datagrams into packets, and a reassembly engine that collects the data
//! chunks of each file and puts them back together in order.

pub mod file_manager;
pub mod packet;

use crate::packet::PacketError;
use vstd::prelude::*;

verus! {

/// `std::io::Error`, the error that storing a finished file can report;
/// carried through as an opaque value.
#[verifier::external_type_specification]
#[verifier::external_body]
pub struct ExIoError(std::io::Error);

/// Why one file cannot be put back together.
#[derive(Debug, Clone, Copy, PartialEq, Eq, Structural)]
pub enum ReassemblyError {
    /// The last chunk is unknown, or a chunk up to it is missing.
    IncompleteFile,
    /// A chunk went missing while the file was being concatenated.
    MissingChunk(u16),
    /// All chunks are there, but no header ever named the file.
    MissingFileName,
}

#[derive(Debug)]
pub enum ClientError {
    IoError(std::io::Error),
    PacketError(PacketError),
    /// The file with this id could not be reassembled.
    FileError { file_id: u8, error: ReassemblyError },
}

impl From<std::io::Error> for ClientError {
    fn from(e: std::io::Error) -> (r: ClientError)
        ensures
            r == ClientError::IoError(e),
    {
        ClientError::IoError(e)
    }
}

impl vstd::std_specs::convert::FromSpecImpl<std::io::Error> for ClientError {
    open spec fn obeys_from_spec() -> bool {
        true
    }

    open spec fn from_spec(e: std::io::Error) -> ClientError {
        ClientError::IoError(e)
    }
}

impl From<PacketError> for ClientError {
    fn from(e: PacketError) -> (r: ClientError)
        ensures
            r == ClientError::PacketError(e),
    {
        ClientError::PacketError(e)
    }
}

impl vstd::std_specs::convert::FromSpecImpl<PacketError> for ClientError {
    open spec fn obeys_from_spec() -> bool {
        true
    }

    open spec fn from_spec(e: PacketError) -> ClientError {
        ClientError::PacketError(e)
    }
}

} // verus!
