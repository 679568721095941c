//! # REFX Core
//!
//! Foundation of the REFX platform, independent of any AI model, provider
//! or host platform:
//! - [`event`]: in-process event bus
//! - [`task`]: task model, state machine and task manager
//! - [`config`]: typed, validated configuration
//! - [`logging`]: errors of logger installation
//! - [`runtime`]: service lifecycle and core runtime
//! - [`platform`]: the host-platform boundary
//! - [`daemon`]: decisions of the host process

pub mod clock;
pub mod config;
pub mod daemon;
pub mod event;
pub mod logging;
pub mod platform;
pub mod runtime;
mod seqs;
pub mod task;
pub mod text;

pub use config::RefxConfig;
pub use event::{Event, EventBus, EventEnvelope, Subscription};
pub use runtime::{Runtime, RuntimeState, Service, ServiceContext};
pub use task::{Priority, Task, TaskId, TaskManager, TaskState};
