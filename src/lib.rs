//! A small persistent store of weight measurements, with the text formats it
//! reads and writes and the menu logic that drives it.

pub mod digits;
pub mod weight;
pub mod store;
pub mod codec;
pub mod menu;
