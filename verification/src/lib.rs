//! Configuration-driven portfolio table for crypto assets: the rules that turn
//! settings, assets and quotes into ordered, styled table cells.

pub mod text;
pub mod conf;
pub mod currency;
pub mod order;
pub mod table;
