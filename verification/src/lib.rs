//! An in-process actor runtime core: addressed envelopes, bounded mailboxes,
//! request correlation, actor status, sources, routing and supervision.
//!
//! Every state change is a function from the state before and an event to the
//! state after, with a contract over a mathematical model of the state.
//! Suspension, wake-ups and clocks belong to the caller: functions that depend
//! on time take the current instant, in milliseconds, as an argument.

pub mod actor;
pub mod addr;
pub mod context;
pub mod envelope;
pub mod errors;
pub mod exec;
pub mod group;
pub mod inspector;
pub mod mailbox;
pub mod messages;
pub mod request;
pub mod request_table;
pub mod routers;
mod sealed;
pub mod source;
pub mod supervisor;
pub mod system;
pub mod time;
pub mod topology;

pub use crate::actor::ActorStatus;
pub use crate::addr::Addr;
pub use crate::context::Attached;
pub use crate::envelope::{Envelope, MessageKind, ResponseToken};
pub use crate::exec::ExecResult;
pub use crate::group::Group;
pub use crate::topology::Topology;
