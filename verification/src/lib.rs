//! Host-side runtime pieces for loading, isolating, supervising and
//! hot-swapping plugins: dependency ordering, resource sandboxing,
//! reload policy, and the event and command buses.

pub mod clock;
pub mod command_system;
pub mod config;
pub mod dependency;
pub mod error;
pub mod event_system;
pub mod hot_reload;
pub mod metadata;
pub mod monitoring;
pub mod plugin_manager;
pub mod sandbox;
pub mod server_commands;
pub mod text;
pub mod wasm_runtime;

pub use command_system::{Command, CommandRegistry};
pub use config::PluginConfig;
pub use error::Error;
pub use event_system::{Event, EventBus};
pub use metadata::PluginMetadata;
pub use plugin_manager::PluginManager;
