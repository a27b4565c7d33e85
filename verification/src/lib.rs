//! Boot-time generator for an overlay root filesystem: discovered layer
//! directories become one mount unit each, and one aggregate overlay unit
//! whose dependency list and lower-directory stack are two views of a single
//! sorted order over the layer names.

pub mod escape;
pub mod layers;
pub mod order;
pub mod units;
