//! Core of KAIC: choosing a model for a task, keeping the models of one machine
//! within its memory, running a task to its end and guarding what leaves it.
//!
//! Everything here computes on plain values. Reading files, talking to model
//! servers, to Telegram and to the database is done by the application around
//! this library.

pub mod agent_loop;
pub mod capability_registry;
pub mod clock;
pub mod control_auth;
pub mod control_center_api;
pub mod formats;
pub mod json;
pub mod keyed;
pub mod mcp;
pub mod media;
pub mod model_backend;
pub mod model_status;
pub mod numbers;
pub mod resource_registry;
pub mod router;
pub mod scheduler;
pub mod task_store;
pub mod telegram_bridge;
pub mod text;
pub mod tool_gate;
