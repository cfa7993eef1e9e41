//! A reader for a two-file asset archive: an index file that lists packs and
//! files, and a container file that holds the packs. The index is parsed by
//! [`Trpfd`], the container by [`Trpfs`], both from the bytes of the file.
//! Packs are matched between the two by the content hash of their names.

pub mod error;
pub mod kraken;
pub mod trpfd;
pub mod trpfs;
pub mod utils;

pub use error::Error;
pub use trpfd::Trpfd;
pub use trpfs::Trpfs;
