//! Small verified building blocks shared by the simulator's modules.

pub mod vec_map;
pub mod keys;
pub mod seq_facts;
pub mod fmt;
pub mod ids;
pub mod rng;
pub mod sorting;
pub mod bytes;
pub mod wrap;
pub mod split;
pub mod text;
