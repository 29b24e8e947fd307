//! Neuro-evolution: a genetic algorithm whose genome is the flattened
//! weight and bias vector of a fully connected feed-forward network.
//!
//! Genes are carried as the bit patterns of 32-bit reals. The library lays
//! genes out, recombines and replaces them; it never computes on their
//! numeric value.

pub mod genetic;
pub mod network;
pub mod random_source;
