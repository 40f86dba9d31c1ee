//! Authoritative server core for a multiplayer arena game: a fixed-tick
//! simulation of growing serpentine bodies ("slithers") that eat mass
//! pellets, turn under a rate limit, optionally boost, and die on
//! collision, releasing their mass back into the world; together with the
//! length-prefixed binary protocol that carries player intents in and
//! world snapshots out.
//!
//! All quantities are fixed-point integers: positions and masses in
//! milli-units, directions in milli-degrees, elapsed time in
//! milliseconds. The networking itself (sockets, the tick-pacing loop)
//! lives outside the library; the library holds every decision the server
//! makes and the exact bytes it exchanges.
use vstd::prelude::*;

pub mod clot;
pub mod color;
pub mod geom;
pub mod nums;
pub mod protocol;
pub mod rng;
pub mod slither;
pub mod state;
pub mod updater;
pub mod world;

verus! {

} // verus!
