//! Streaming persistence of agent session updates.
//!
//! Updates of a conversation arrive as a fast stream of small fragments.
//! This library merges consecutive fragments of one kind into a single log
//! entry, seals a merged group when the stream changes kind, when an atomic
//! event arrives, when the session has been idle for a configured time or
//! when a flush is asked for, and keeps one ordered, append-only log per
//! session.
//!
//! The engine is a state machine without a clock and without files: its
//! operations take the current time from the caller and keep the logs in
//! memory, and [`record_codec`] gives the logs their stored form. What the
//! operations do is stated in [`service_model`], and [`laws`] proves what
//! follows for every run.
//!
//! Beside the engine the library holds the plain data and rules of the
//! client around it: its configuration, the bus for code selections, the
//! texts of the conversation view, the labels of the session debugger and the
//! grouping of the task list.

pub mod code_selection_bus;
pub mod config;
pub mod conversation;
pub mod flush_scheduler;
pub mod laws;
pub mod merge_policy;
pub mod message_store;
pub mod partition;
pub mod persistence_service;
pub mod record_codec;
pub mod service_model;
pub mod session_buffer;
pub mod session_debug;
pub mod string_map;
pub mod task_panel;
pub mod update;
