//! Tag extraction protocol for a reusable media decode session.
//!
//! The media engine itself (demuxing, decoding, tag parsing) is an outside
//! collaborator. This library holds the decisions that drive it: which
//! output pad gets linked to the discard sink, how the messages of one run
//! are folded into a tag map or an error, how the session returns to idle,
//! and how a batch of paths stops at the first failure.

pub mod batch;
pub mod message;
pub mod pad;
pub mod session;
pub mod tag_map;

pub use batch::Batch;
pub use message::{BusMessage, TagError, TagValue};
pub use pad::{pad_action, PadAction};
pub use session::{Phase, Session, Step};
pub use tag_map::TagMap;
