//! A chunked slot allocator: an arena that hands out stable, reusable handles
//! to values of one type, stored in fixed-capacity chunks that never move.

mod arena;
mod identity;
pub mod laws;

pub use arena::{Arena, ArenaError, Index, count_live, count_some, with_slot};
