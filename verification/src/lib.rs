//! A gap buffer: a contiguous region of element slots logically split into a
//! left run and a right run of live elements, with an unused gap between them.
//! Insertion and deletion near the gap are cheap because only the elements
//! between the gap and the edit point ever move.

pub mod buffer;
pub mod render;
