//! Two-dimensional global illumination by radiance cascades: the jump-flood
//! distance transform of an occluder mask, the distance field, the cascade
//! counts and probe parameters, the ping-pong texture pairs, and the order of
//! the GPU work of a frame.

pub mod distance_field;
pub mod flood_proofs;
pub mod jfa;
pub mod math_util;
pub mod ping_pong;
pub mod radiance_cascades;
pub mod schedule;
