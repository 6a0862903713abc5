//! Building blocks of a latency benchmark for inter-thread channels: the
//! shared counter that paces a broadcasting producer, the decisions of
//! producers and consumers as state machines, and the choice of how many
//! consumer threads to start.

pub mod counter;
pub mod producer;
pub mod consumer;
pub mod fanout;
