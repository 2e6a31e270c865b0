//! Integer and structural core of a two-dimensional SPH particle fluid: the
//! uniform spatial grid used for neighbour search, the particle state store,
//! the regular layout used to reset the particle set, and the input decisions
//! taken before a tick.

pub mod control;
pub mod grid;
pub mod layout;
pub mod particles;
