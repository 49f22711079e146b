//! A verified core for a terminal file-list manager.
//!
//! A project holds an ordered list of active entries and an ordered archive;
//! exactly one interactive instance may own a project directory at a time.
//! The modules here hold the logic of that system: the entry store and its
//! mutations, the selection state machine that interprets input events, the
//! single-instance lock protocol, and the wire formats of the control channel
//! and the lock record.  All I/O (terminal, sockets, clipboard, clock,
//! filesystem) stays with the caller, which hands the results in as plain
//! values.

pub mod args;
pub mod codec;
pub mod config;
pub mod link;
pub mod lock;
pub mod project;
pub mod requests;
pub mod select;
