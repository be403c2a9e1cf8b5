use vstd::prelude::*;

pub mod alerts;
pub mod blockdev;
pub mod colors;
pub mod commands;
pub mod controls;
pub mod gpu;
pub mod hwmon;
pub mod lists;
pub mod logs;
pub mod netinfo;
pub mod order;
pub mod power;
pub mod procfs;
pub mod procs;
pub mod sampler;
pub mod services;
pub mod smart;
pub mod ssh;
pub mod text;

verus! {

/// Number of samples kept in every rolling history graph.
pub const HISTORY: usize = 60;

} // verus!
