//! A clipboard-history engine: a bounded, ordered record of what the system
//! clipboard has held, with pinning, and the decisions of the loop that
//! samples the clipboard.
//!
//! The engine touches neither the clipboard nor the clock. Its caller reads
//! the clipboard and hands the result in; the engine decides whether that is
//! a change, records it, and drops what the capacity no longer allows.
//!
//! - [`content`] and [`clip`]: what a clipboard holds, and one entry of the
//!   history.
//! - [`diff`]: whether a content that was read is new.
//! - [`store`]: the history and its pins; [`model`] says what each of its
//!   operations does, as mathematics.
//! - [`scheduler`]: the polling loop as a state machine.
//! - [`render`]: the newest text in a template.
//! - [`decode`]: encoded images into raw pixels.
//! - [`wellformed`], [`retention`] and [`trace`]: what is proved of the
//!   history, for one operation and for any sequence of them; [`eviction`]
//!   and [`pinning`] hold the facts that these proofs rest on.

pub mod clip;
pub mod content;
pub mod decode;
pub mod diff;
pub mod eviction;
pub mod model;
pub mod pinning;
pub mod render;
pub mod retention;
pub mod scheduler;
pub mod store;
pub mod trace;
pub mod wellformed;
