//! This crate provides a heapless, fixed size sliding window.
//!
//! Sliding windows are used to hold the N most recent samples of a data stream.
//!
//! # Example
//!
//! ```rust
//! use sliding_window::SlidingWindow;
//!
//! // Create a SlidingWindow with a window size of 4 elements
//! let mut sw: SlidingWindow<_, 4> = SlidingWindow::new();
//!
//! // Insert some data
//! sw.insert(1);
//! sw.insert(2);
//! sw.insert(3);
//! sw.insert(4);
//!
//! // The 0 index always returns the oldest element in the window
//! assert_eq!(1, sw[0]);
//!
//! // When full, inserting a new element removes and returns the oldest
//! assert_eq!(Some(1), sw.insert(5));
//! ```
//!
//! # What is proved
//!
//! A window is modelled by the sequence of the elements it holds, oldest
//! first (its view). Every operation states what it does to that sequence,
//! over the functions of [`model`]; the laws at the end of that module say
//! what follows for whole streams of insertions. No operation panics on an
//! input that its precondition admits, and only the indexed read has a
//! precondition at all.

pub mod iter;
pub mod model;
pub mod window;
pub mod wrapping;

pub use iter::{Iter, UnorderedIter};
pub use window::SlidingWindow;
pub use wrapping::WrappingExt;
