//! A directory-scoped key/value overlay.
//!
//! Values are attached to directories; a lookup made from a directory sees the
//! values of that directory and of every ancestor, the nearest one winning.
//!
//! - [`key_values`] and [`store`] hold the data: the flat map of one
//!   directory, and the map from directory to flat map.
//! - [`ancestry`] walks from a directory up to its root.
//! - [`resolution`] says what a lookup means and proves what follows from it.
//! - [`config`] is the request of one invocation and its context.
//! - [`projector`] puts them together: a store seen from one directory.

mod assoc;
pub mod ancestry;
pub mod config;
pub mod key_values;
pub mod projector;
pub mod resolution;
pub mod store;
