//! Searching a filesystem tree by name pattern and entry kind, with the
//! decisions of the walk kept apart from the I/O that feeds it; and the
//! argument readers of the small text tools that stand beside it.

pub mod cut;
pub mod decimal;
pub mod head;
pub mod matcher;
pub mod pattern;
pub mod tree;
pub mod uniq;
pub mod walker;
