//! Helpers for rendering templates.
pub mod block;
pub mod context;
pub mod dispatch;
pub mod lookup;
pub mod node;
pub mod scope;
pub mod type_assert;
pub mod value;
