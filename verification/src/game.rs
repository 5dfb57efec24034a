//! The world the processes live in: currencies, challenges and the map.

pub mod crypto;
pub mod map;
pub mod replay;
