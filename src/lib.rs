//! Two-phase code actions: decide whether a transformation applies at a cursor
//! or selection, and, when asked, compute the text edit it makes.

pub mod assist;
pub mod edit;
pub mod indent;
pub mod syntax;
pub mod text;
