//! Lowering of typed neural network graphs to Metal: which matrix multiplication kernel
//! takes a product and what has to be wired around it, how mixture-of-experts weights are
//! laid out for the routed kernels, what becomes of every other node, and in which order
//! the passes of the transform run.

pub mod bitpacking;
pub mod cast;
pub mod command_buffer;
pub mod datum;
pub mod dim;
pub mod fact;
pub mod flags;
pub mod gemm;
pub mod list;
pub mod matmul;
pub mod model;
pub mod moe;
pub mod node;
pub mod product;
pub mod reduce;
pub mod reduction;
pub mod repack;
pub mod sdpa;
pub mod text;
pub mod transform;
pub mod translator;
pub mod weights;
