//! Stack engine for a binary-split tiling window manager.
//!
//! The manager's split tree is fetched as an immutable snapshot; the
//! engine computes tree paths, ratio plans and stack bookkeeping as
//! pure, verified functions, and hands back the mutations to perform as
//! plain action values. An unverified caller owns the process and
//! socket edges and carries those actions out.

pub mod bspwm;
pub mod irspc;
pub mod json_socket;
pub mod messages;
pub mod registry;
pub mod stack;
pub mod tree;
