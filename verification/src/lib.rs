//! A live tree of status lines for a terminal.
//!
//! The tree holds plain messages, messages with a spinner and progress bars.
//! A [`CLIModificationElement`] edits the tree at its deepest open branch and
//! counts the lines that the edits add and remove. The text of every frame,
//! control sequences included, is computed here from a snapshot of the tree;
//! writing it to the terminal, the locks and the background thread belong to
//! the program around this library.

mod cell;
pub mod frame_proofs;
pub mod modification;
pub mod node;
pub mod render;
pub mod schedule;
pub mod snapshot;
pub mod terminal;

pub use modification::CLIModificationElement;
pub use node::CLIDisplayNode;
pub use node::CLIDisplayNodeType;
pub use node::NodeView;
pub use node::TreeView;
pub use snapshot::LineSnapshot;
pub use snapshot::LineView;
pub use snapshot::SnapshotView;
pub use snapshot::TreeSnapshot;
