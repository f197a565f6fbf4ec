//! Finds what to show for the place in a Move program over which the cursor hovers.

pub mod declarations;
pub mod docs;
pub mod expr_laws;
pub mod exprs;
pub mod find_laws;
pub mod handler;
pub mod item_laws;
pub mod items;
pub mod laws;
pub mod model;
pub mod positions;
pub mod request;
pub mod search;
pub mod source;
pub mod step_laws;
pub mod text;
pub mod text_laws;
pub mod use_laws;
pub mod uses;
pub mod visit;
pub mod visit_laws;
