//! Markers for how the elements of a collection may be reached.
use vstd::prelude::*;

verus! {

/// Elements may be moved.
#[derive(Debug, Clone, Copy, PartialEq, Eq)]
pub struct Moveable;

/// Elements stay where they are.
#[derive(Debug, Clone, Copy, PartialEq, Eq)]
pub struct Pinned;

/// Elements are not shared.
#[derive(Debug, Clone, Copy, PartialEq, Eq)]
pub struct Isolated;

/// Elements are shared for reading.
#[derive(Debug, Clone, Copy, PartialEq, Eq)]
pub struct Immutable;

/// Elements are shared for change.
#[derive(Debug, Clone, Copy, PartialEq, Eq)]
pub struct Mutable;

} // verus!
