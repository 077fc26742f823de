//! A hierarchical variable store and a generalized tensor indexing engine.
//!
//! The crate has two halves.  The first is a variable store: a registry that
//! assigns stable, collision-resistant dotted names to mutable parameter
//! tensors organized in a namespace tree, tracks a trainability flag per
//! variable, and supports freeze/unfreeze, snapshot save/load, and whole-store
//! copies across devices.  The second is a small interpreter that translates
//! Python-slice-like index expressions (single index, range, insert-axis,
//! gather by index tensor) into a pipeline of primitive single-axis view
//! operations over a tensor, tracking the shifting axis cursor as dimensions
//! are consumed, inserted, or preserved.
//!
//! Tensors here are a plain-value model of an engine's tensor handles: a shape,
//! a flat row-major buffer of integer elements, an element kind, a device tag,
//! and a gradient-tracking flag.  Every operation on them is verified.

pub mod device;
pub mod index;
pub mod init;
pub mod shape;
pub mod store;
pub mod tensor;
pub mod text;

pub use device::{Device, Kind};
pub use init::Init;
pub use index::{Bound, IndexError, NewAxis, TensorIndexer};
pub use store::{Path, PathModel, StoreError, StoreModel, VarModel, VarStore};
pub use tensor::{Tensor, TensorModel};
