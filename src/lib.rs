//! A codec for IRC protocol lines: parsing a wire line into a [`Message`],
//! serializing a [`Message`] back into a wire line, and the registry of
//! IRCv3 capability names used during capability negotiation.
use vstd::prelude::*;

pub mod caps;
pub mod laws;
pub mod message;
pub mod parse;
pub mod text;

pub use caps::Capability;
pub use message::{Message, Tag};
pub use parse::ParseError;
