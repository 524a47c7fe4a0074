//! Linked lists under four ownership disciplines, and two small algorithms.
//!
//! Each list is a container of its own with a view as a sequence of
//! elements: a stack whose nodes have one owner ([`exclusive`],
//! [`exclusive_v2`]), an immutable list whose tails are shared
//! ([`persistent`]), a list linked in both directions ([`doubly_linked`])
//! and a queue ([`queue`]). What an operation does is stated on the view.

pub mod algos;
mod arena;
pub mod doubly_linked;
pub mod elementwise;
pub mod exclusive;
pub mod exclusive_v2;
pub mod persistent;
pub mod queue;
