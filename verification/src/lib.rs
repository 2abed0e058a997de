//! Tab completion for pipeline descriptions: a line of stages, each a `!`,
//! an element type, `key=value` properties and an optional link to a pad of
//! an earlier stage. The line is read as far as it goes, the unread rest is
//! judged, and the place of the cursor decides what is to be suggested.

pub mod catalog;
pub mod chars;
pub mod element;
pub mod grammar;
pub mod listing;
pub mod ranking;
pub mod remainder;
pub mod resolver;
