//! How a decoded movie is obtained. The decoding itself and the retrieval
//! (filesystem or network) are the embedding application's job; these traits
//! only name the capability so that callers can stay generic over it.
use crate::error::UnpackerError;
use vstd::prelude::*;

verus! {

/// A container that can be decoded from raw bytes, a file or a URL.
pub trait MovieReader where Self: Sized {
    /// Decode a movie from an in-memory buffer.
    fn from_buffer(buffer: Vec<u8>) -> Result<Self, UnpackerError>;

    /// Retrieve a movie over the network and decode it.
    fn from_url(url: &str) -> Result<Self, UnpackerError>;

    /// Read a movie from the filesystem and decode it.
    fn from_file(path: &str) -> Result<Self, UnpackerError>;
}

/// The network-retrieval capability on its own.
pub trait MovieFromUrl where Self: Sized + MovieReader {
    /// Retrieve a movie over the network and decode it.
    fn from_url(url: &str) -> Result<Self, UnpackerError>;
}

} // verus!
