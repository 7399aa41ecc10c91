//! Verified core of a concurrent file reader built on a kernel I/O ring.
//!
//! The library owns everything that can be stated and proved: the block
//! layout rule shared by the submission and completion paths, the request
//! descriptor with its buffer slots, the token registry that maps ring
//! completions back to descriptor ownership, and the drain step that
//! reassembles a file's bytes from its buffers.  The ring itself, file
//! handles and the output stream are I/O and live outside the library.
//!
//! No ordering is promised across files: completions may drain in any
//! order, so the concatenated output keeps each file's bytes contiguous but
//! may order the files differently than they were submitted.

pub mod descriptor;
pub mod drain;
pub mod layout;
pub mod registry;

pub use descriptor::build_request;
pub use descriptor::RequestDescriptor;
pub use drain::drain_descriptor;
pub use drain::DrainError;
pub use layout::compute_layout;
pub use layout::DEFAULT_BLOCK_SIZE;
pub use layout::MAX_SEGMENTS;
pub use registry::Registry;
