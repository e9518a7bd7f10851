//! Records code-coverage events (program counters hit, with the length of the
//! block executed) against a fixed set of loaded modules, and exports them in
//! the dragondance Pin Helper file format.
//!
//! The file format is stated as a specification (`TraceView::encoding`) and the
//! writer is proved to emit exactly those bytes.

pub mod layout;
pub mod module;
pub mod trace;

pub use module::{Module, ModuleView};
pub use trace::{AddError, EntryView, Trace, TraceView};
