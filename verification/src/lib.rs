//! A Bloom filter over a packed bit array, together with two in-place sorts
//! and the small pieces a demonstration of them needs: a pseudorandom
//! generator and the text of a vector.
//!
//! Every executable function carries a contract over a mathematical model of
//! the data it touches: a bit array is a sequence of booleans, a filter is
//! that sequence plus its size and probe count, and a vector being sorted is
//! a sequence of integers.

pub mod bit_array;
pub mod hashing;
pub mod filter_model;
pub mod bloom_filter;
pub mod sorting;
pub mod prng;
pub mod string_specs;
pub mod vec_text;
