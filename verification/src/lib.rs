//! Publish/subscribe helpers: bounded and unbounded event containers,
//! chronological lists, dictionaries, histograms, a pooled-block bookkeeper
//! and the decision logic of the synchronization objects, each stated and
//! proved against a mathematical model of its contents.

pub mod tools;
