//! Announcement bookkeeping for a package registry feed: which packages are
//! known, which have been announced, how the catalog is walked page by page,
//! which package is picked next, and how an announcement reads.
pub mod announce;
pub mod catalog;
pub mod cycle;
pub mod select;
pub mod store;
