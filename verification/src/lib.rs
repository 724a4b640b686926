//! An array-backed binary max-heap whose behaviour is stated in contracts.

pub mod order;
pub mod layout;
pub mod repair;
pub mod model;
pub mod laws;
pub mod history;
pub mod heap;

pub use heap::BinaryHeap;
pub use heap::SmartHeapMutatingPointer;
