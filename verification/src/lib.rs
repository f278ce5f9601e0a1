//! The exact core of a ray tracer.
//!
//! Every number the tracer handles is a binary64 value. This crate never
//! rounds one: it holds each number as its encoding and does with it only
//! what the encoding settles exactly: ordering, sign, negation, selection,
//! storage. On top of that it keeps the scene's data model, the matrix
//! shapes, the visibility rule, the ordering of intersections, the pixel
//! canvas and its text encoding. Whatever has to round (sums, products,
//! roots, trigonometry) is done by the caller and handed in.

pub mod error;
pub mod scalar;
pub mod vector;
pub mod canvas;
pub mod matrix;
pub mod ray;
pub mod matters;
pub mod world;
pub mod projectile;
