//! Task-orchestration engine for a team of autonomous workers.
//!
//! Teams of members claim and complete interdependent tasks under
//! admission-control rules (plan-approval gates, delegation-only
//! restrictions, file-conflict exclusion), with a message inbox and
//! usage accounting. The aggregate root also tracks named terminal
//! sessions and can be encoded to and decoded from a JSON document.

use vstd::prelude::*;

pub mod codec;
pub mod domain;
pub mod files;
pub mod keymap;
pub mod laws;
pub mod parse;
pub mod render;
pub mod engine;
pub mod server;
pub mod session_core;
pub mod team;

pub use domain::TaskStatus;
