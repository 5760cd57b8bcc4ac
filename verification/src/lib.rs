//! A lazy transformer over a lookahead-capable source: it inspects the next
//! item without consuming it, lets an acceptance routine decide what to do with
//! it, and either consumes and maps the item or stops for good.

mod deque;
pub mod peeking_map;
pub mod run;

pub use peeking_map::PeekingMap;
