//! An operation-application engine for a tree-shaped rich document.
//!
//! A document is an ordered span of nodes: text runs carrying a style set,
//! and groups holding an attribute list and a child span.  An operation is a
//! pair of positional programs, a deletion program applied first and an
//! insertion program applied to the intermediate document.  Applying an
//! operation produces the new document together with a coalesced low-level
//! edit trace that a rendering layer can replay incrementally.

pub mod apply;
pub mod doc;
pub mod laws;
pub mod sem;
pub mod trace;

pub use apply::apply_add;
pub use apply::apply_add_bc;
pub use apply::apply_del_bc;
pub use apply::apply_delete;
pub use apply::apply_op_bc;
pub use apply::apply_operation;
pub use doc::AddElement;
pub use doc::Attrs;
pub use doc::DelElement;
pub use doc::DocNode;
pub use doc::MalformedOperation;
pub use doc::Op;
pub use trace::Bytecode;
pub use trace::Program;
