pub mod character;
pub mod collections;
pub mod common;
pub mod dynamic;
pub mod error;
pub mod event;
pub mod map;
