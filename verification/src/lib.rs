//! What if a feed, but it's a mailbox?
//!
//! The library turns the entries of an (RSS/Atom/JSON) feed into the
//! contents of mails, and decides which of them still have to be delivered
//! to a maildir.
//!
//! Parse the feed with [`feed::parse_feed_checked`], then use [`ops::assemble_mail`]
//! once for each entry that [`maildir::PendingDeliveries`] still holds.

pub mod authors;
pub mod feed;
pub mod maildir;
pub mod model;
pub mod ops;
pub mod options;
pub mod text;
pub mod transform;
pub mod util;
