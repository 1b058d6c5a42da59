//! Vocabulary review: picks a weakness-biased sample of an account's
//! vocabulary and lays it out for a small display.

pub mod inventory;
pub mod order;
pub mod sampler;
pub mod augment;
pub mod pipeline;
pub mod scheduler;
pub mod layout;
