use vstd::prelude::*;

pub mod text;
pub mod registry;
pub mod ports;
pub mod protocol;
pub mod server;
