//! Route planning between cities over a weighted road graph whose edge
//! weights grow with the traffic that each planned journey adds.

pub mod text;
pub mod city;
pub mod graph;
pub mod time;
pub mod json;
pub mod rpc;
pub mod state;
pub mod wire;
pub mod server;
