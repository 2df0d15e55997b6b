//! Kernels of a zero-knowledge virtual machine, with their meaning proved.
//!
//! - [`ifma`], [`fq8`] and [`domain`]: arithmetic of the BLS12-377 base field in a 52-bit
//!   limb domain, one element and eight elements at a time, and the way in and out of it.
//! - [`point_buf`], [`ifma_batch_add`] and [`bucket_add`]: batched affine additions on G1 that
//!   share one inversion, and the bucket sums built on them.
//! - [`data`] and [`data_text`]: data held as an object or as its bytes, its framing and its
//!   readable form.
//! - [`rest`]: the endpoints, the bounds and the answers of queries to a node's REST API.
//!
//! Laws that span functions stand in [`batch_laws`], [`bucket_laws`], [`curve_laws`],
//! [`data_laws`], [`field_laws`], [`group`], [`order_laws`], [`pass_laws`] and [`rest_laws`].
//! The other modules hold the mathematics that these contracts speak of: the prime field, the
//! curve, limbs and Montgomery products.

pub mod arith;
pub mod batch_laws;
pub mod bucket_add;
pub mod bucket_laws;
pub mod buckets;
pub mod bytes_le;
pub mod certificate;
pub mod curve;
pub mod curve_laws;
pub mod data;
pub mod data_laws;
pub mod data_text;
pub mod domain;
pub mod field;
pub mod field_laws;
pub mod fq;
pub mod fq8;
pub mod group;
pub mod ifma;
pub mod ifma_batch_add;
pub mod limbs;
pub mod montgomery;
pub mod order_laws;
pub mod pass_laws;
pub mod point_buf;
pub mod prime;
pub mod rest;
pub mod rest_laws;
pub mod text;
