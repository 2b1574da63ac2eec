//! Constructive solid geometry scenes for a ray-marching renderer.
//!
//! A scene is a tree of primitive shapes and binary operators. The crate
//! flattens such a tree, in post-order, into an instruction stream and a
//! parameter blob that a small stack machine can run, and it evaluates an
//! editable node graph into the tree to flatten.
//!
//! - [`node`], [`primitives`], [`operations`]: the scene tree.
//! - [`command`], [`builder`]: instructions, and the encoder of a tree.
//! - [`stack_machine`], [`layout`]: what the encoding means and where
//!   each part of a tree lies in it, with the proofs.
//! - [`value`], [`template`], [`graph`]: the node graph of an editor.
//! - [`semantics`], [`evaluator`]: what a graph means, and its evaluation.
//! - [`upload`]: the bytes that go to the device.
//!
//! Numbers are held as bit patterns of 32-bit IEEE-754 values throughout:
//! that is what the device reads, and nothing here computes with them.

pub mod builder;
pub mod command;
pub mod evaluator;
pub mod graph;
pub mod layout;
pub mod node;
pub mod operations;
pub mod primitives;
pub mod semantics;
pub mod stack_machine;
pub mod template;
pub mod upload;
pub mod value;
