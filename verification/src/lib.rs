//! Reconstruction of assistant conversation sessions from their append-only
//! logs, and live tracking of session activity.
//!
//! The crate has three parts.
//!
//! * [`project_path`] decodes the name of a project directory back into the
//!   path of the project, against a filesystem that is a parameter.
//! * [`session_store`] reconstructs sessions and summaries from the records
//!   of a log, with [`content`] for the decoding of message payloads,
//!   [`catalog`] for the listing of all sessions, and [`session_laws`] for
//!   what holds of every result.
//! * [`session_monitor`] tracks the state of live sessions from the events
//!   that they post to the endpoint of [`hooks`]; [`hook_settings`] puts the
//!   hooks that post them into the assistant's settings.
//!
//! The library reads no file and no clock: records, existing paths and
//! times are handed to it. Its contracts are stated over the views of its
//! types, which are made of sequences, maps and plain values.

pub mod app_settings;
pub mod catalog;
pub mod content;
pub mod hook_settings;
pub mod hooks;
pub mod json;
pub mod locations;
pub mod markdown_export;
pub mod project_path;
pub mod recency;
pub mod session_laws;
pub mod session_monitor;
pub mod session_store;
pub mod session_types;
pub mod string_map;
pub mod text;
pub mod timestamps;
