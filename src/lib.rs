//! Evolutionary search for keyboard layouts that minimise a bigram typing
//! effort over a corpus of text.
//!
//! Effort is exact fixed point: heatmap weights in quarters of the effort
//! unit, bigram costs and scores in sixteenths.
pub mod board;
pub mod cost;
pub mod job;
pub mod layout;
pub mod mutation;
pub mod optimizer;

pub use board::Hand;
pub use cost::Corpus;
pub use job::AppState;
pub use layout::{Key, Keyboard};
pub use optimizer::{run_group, Group};
