//! A one-shot reminder scheduler: reminders wait in a time-ordered queue,
//! an active set records whether each one is still live, and the scheduler
//! decides, step by step, what to fire, acknowledge or list.
pub mod reminder;
pub mod queue;
pub mod active_set;
pub mod scheduler;
pub mod link;
pub mod duration;
pub mod command;
pub mod listing;
