use vstd::prelude::*;

pub mod text;
pub mod json;
pub mod syscalls;
pub mod ids;
pub mod scheduler;
pub mod paths;
pub mod vcm;
pub mod std_plugins;
pub mod citadel;
pub mod chal;
pub mod plugins;
pub mod server;
pub mod siren;
pub mod swarm;

verus! {

} // verus!
