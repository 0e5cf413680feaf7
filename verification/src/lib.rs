//! The data behind a personal portfolio site: a catalog of showcased projects
//! that is loaded once and then only read, a sampler that draws picture names
//! at random from a fixed listing, and the markup fragments that a page asks for.
//!
//! Every function states what it returns over the views of its arguments; the
//! random draw is the one thing that is taken on trust.

pub mod catalog;
pub mod load;
pub mod navbar;
pub mod record;
pub mod sampler;
pub mod text;
