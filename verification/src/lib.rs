//! Structural core of a fully-connected, sigmoid-activated feed-forward
//! network: the parameter record and its shape invariant, validation of
//! examples, the shuffled mini-batch schedule of a training run, and the
//! scoring of predictions against one-hot labels.
//!
//! Real numbers never enter this crate as numbers. Every parameter, input,
//! target and prediction is carried as the 64 bits of an IEEE 754 binary64
//! value, so that a model is stored and handed back exactly, and the few
//! comparisons the rules need are defined on those bits. The arithmetic of
//! the forward and backward pass belongs to the host that drives a
//! [`schedule::Training`].

pub mod bits;
pub mod error;
pub mod scoring;
pub mod schedule;
pub mod matrix;
pub mod network;
