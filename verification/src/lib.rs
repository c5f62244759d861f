use vstd::prelude::*;

pub mod text;
pub mod headings;
pub mod theme;
pub mod langmap;
pub mod html;
pub mod config;
pub mod search;
pub mod pattern;
pub mod nav;
pub mod links;
pub mod overlay;
pub mod bridge;
pub mod navtree;
pub mod keys;

verus! {

} // verus!
