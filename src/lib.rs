//! A small in-memory filesystem whose only content is a control directory.
//!
//! The inode table hands out stable identities for `(parent, name)` pairs,
//! the control module classifies identities against a fixed catalogue of
//! virtual paths, and the filesystem module answers the mount protocol's
//! requests on top of both. The decimal module writes and reads the pid
//! file's text, and the remote module gives a second process the paths it
//! needs to find a mount, read its process id and shut it down.
pub mod inode;
pub mod control;
pub mod decimal;
pub mod filesystem;
pub mod remote;
