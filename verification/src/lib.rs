//! An SSH host picker for a terminal multiplexer plugin: it reads the
//! concrete `Host` aliases of an OpenSSH client configuration (following
//! `Include`), lets the user filter them and pick a backend, lists remote
//! tmux sessions, and builds the connector commands that open a tab for the
//! chosen host, session or workspace.
//!
//! - [`parser`]: reading the configuration, one step at a time.
//! - [`state`]: the picker's state machine and tmux session listings.
//! - [`plugin`]: settings, status line, splits of workspace tabs, and the
//!   screen.
//! - [`worker`]: worker panes' connector commands and worker indices.
//! - [`path`], [`text`], [`order`]: paths, characters and orderings.
//! - [`progress`]: why reading a configuration always ends.
//! - [`laws`]: properties that hold across the library's operations.
pub mod laws;
pub mod order;
pub mod parser;
pub mod path;
pub mod plugin;
pub mod progress;
pub mod state;
pub mod text;
pub mod worker;
