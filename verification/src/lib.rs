//! Webhook-triggered command dispatcher: a catalogue of named webhooks, each
//! binding a command template to a scheduling policy, and a task queue that
//! admits, dispatches and finalises the resulting shell commands under a
//! global worker cap.
//!
//! The scheduling core (task records, the task queue, the scheduler's message
//! handlers) is verified: admission and dispatch decisions, the lifecycle
//! invariants of the queue, settings validation, template rendering, the
//! authentication accept rule and the JSON snapshot are all specified and
//! proved. Process execution, HTTP serving and configuration file I/O live
//! outside the library and talk to it through plain values.

pub mod authentication;
pub mod clock;
pub mod executor;
pub mod json;
pub mod messages;
pub mod queue_model;
pub mod request;
pub mod scheduler;
pub mod settings;
pub mod snapshot;
pub mod task;
pub mod task_queue;
pub mod template;
pub mod text;
