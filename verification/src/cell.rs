//! Reading a progress cell.

use std::sync::atomic::AtomicU8;
use std::sync::atomic::Ordering;
use std::sync::Arc;
use vstd::prelude::*;

verus! {

/// The value that the cell holds at this moment. Other threads write the cell
/// without coordination, so nothing is known of the value but its type, and two
/// reads may differ.
pub(crate) fn read_cell(cell: &Arc<AtomicU8>) -> u8 {
    cell.load(Ordering::Relaxed)
}

} // verus!
