//! A read-through secret cache: the verified core of the `op-cache` daemon and
//! client.

use vstd::prelude::*;

pub mod op;
pub mod cache;
pub mod daemon;
pub mod keyed;
pub mod mask;
pub mod order;
pub mod text;
pub mod wizard;
